//! The interfaces of a course record and of a catalog of course records,
//! with their contracts stated over spec-level projections.

use vstd::prelude::*;

use crate::text::spec_clean;

verus! {

/// One course record.
pub trait Class: Sized {
    /// The department code, uppercase: MA, CS, ACC and the like.
    spec fn spec_department(&self) -> Seq<char>;

    /// The full department name for the code: Mathematics, Accounting...
    spec fn spec_department_name(&self) -> Seq<char>;

    /// The number code that comes after the department code.
    spec fn spec_discriminator(&self) -> Seq<char>;

    /// The title of the class, excluding the id.
    spec fn spec_title(&self) -> Seq<char>;

    /// The description of the class.
    spec fn spec_description(&self) -> Seq<char>;

    /// The number of credits the class provides.
    spec fn spec_credits(&self) -> Seq<char>;

    /// The prerequisites of the class as a single line.
    spec fn spec_prerequisites(&self) -> Seq<char>;

    /// The semesters the class is offered in.
    spec fn spec_offered(&self) -> Seq<Seq<char>>;

    /// The ids of any cross-listed classes.
    spec fn spec_cross_listings(&self) -> Seq<Seq<char>>;

    /// The distributions the class belongs to.
    spec fn spec_distributions(&self) -> Seq<Seq<char>>;

    /// A URL pointing to an online entry for the class.
    spec fn spec_url(&self) -> Seq<char>;

    /// The full id of the class as uppercase: department code, one space,
    /// number code. CS 115, MA 121, ACC 200 and the like.
    spec fn spec_id(&self) -> Seq<char>;

    /// Returns the full id of the class as uppercase.
    fn id(&self) -> (r: String)
        ensures
            r@ == self.spec_id(),
    ;

    /// Returns the department code for the class as uppercase.
    fn department(&self) -> (r: String)
        ensures
            r@ == self.spec_department(),
    ;

    /// Returns the full department name corresponding to the code.
    fn department_name(&self) -> (r: String)
        ensures
            r@ == self.spec_department_name(),
    ;

    /// Returns the number code that comes after the department code.
    fn discriminator(&self) -> (r: String)
        ensures
            r@ == self.spec_discriminator(),
    ;

    /// Returns the title of the class, excluding the id.
    fn title(&self) -> (r: String)
        ensures
            r@ == self.spec_title(),
    ;

    /// Returns the description of the class.
    fn description(&self) -> (r: String)
        ensures
            r@ == self.spec_description(),
    ;

    /// Returns the number of credits the class provides.
    fn credits(&self) -> (r: String)
        ensures
            r@ == self.spec_credits(),
    ;

    /// Returns the prerequisites of the class formatted as a single String.
    fn prerequisites(&self) -> (r: String)
        ensures
            r@ == self.spec_prerequisites(),
    ;

    /// Returns the semesters that the class is offered in.
    fn offered(&self) -> (r: Vec<String>)
        ensures
            r.deep_view() == self.spec_offered(),
    ;

    /// Returns the ids of any cross-listed classes.
    fn cross_listings(&self) -> (r: Vec<String>)
        ensures
            r.deep_view() == self.spec_cross_listings(),
    ;

    /// Returns the distributions that the class belongs to.
    fn distributions(&self) -> (r: Vec<String>)
        ensures
            r.deep_view() == self.spec_distributions(),
    ;

    /// Returns a URL pointing to an online entry for the class.
    fn url(&self) -> (r: String)
        ensures
            r@ == self.spec_url(),
    ;
}

/// A catalog of course records, queried by id or by department. Both
/// queries compare keys cleaned of everything but ASCII letters and digits,
/// case-insensitively.
pub trait Catalog<C: Class> {
    /// The course records the catalog holds, in order.
    spec fn spec_classes(&self) -> Seq<C>;

    /// Searches the catalog for a course given an id and returns a
    /// reference to the first record whose cleaned id matches, otherwise
    /// None.
    fn query_by_id(&self, id: &str) -> (r: Option<&C>)
        ensures
            match r {
                Some(c) => exists|k: int|
                    {
                        &&& 0 <= k < self.spec_classes().len()
                        &&& *c == self.spec_classes()[k]
                        &&& spec_clean(self.spec_classes()[k].spec_id()) == spec_clean(id@)
                        &&& forall|j: int|
                            0 <= j < k ==> spec_clean(
                                #[trigger] self.spec_classes()[j].spec_id(),
                            ) != spec_clean(id@)
                    },
                None => forall|k: int|
                    0 <= k < self.spec_classes().len() ==> spec_clean(
                        #[trigger] self.spec_classes()[k].spec_id(),
                    ) != spec_clean(id@),
            },
    ;

    /// Searches the catalog for all courses of the given department, in
    /// catalog order; an empty cleaned department matches every course.
    fn query_by_department(&self, code: &str) -> (r: Vec<&C>)
        ensures
            r@.map_values(|c: &C| *c) == spec_department_query(self.spec_classes(), code@),
    ;
}

/// What a department query returns: every class when the cleaned code is
/// empty, else the classes whose cleaned department equals it, in order.
pub open spec fn spec_department_query<C: Class>(classes: Seq<C>, code: Seq<char>) -> Seq<C>
    decreases classes.len(),
{
    if spec_clean(code).len() == 0 {
        classes
    } else if classes.len() == 0 {
        classes
    } else if spec_clean(classes.last().spec_department()) == spec_clean(code) {
        spec_department_query(classes.drop_last(), code).push(classes.last())
    } else {
        spec_department_query(classes.drop_last(), code)
    }
}

} // verus!
