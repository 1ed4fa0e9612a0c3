//! One course record as scraped from a catalog page, and its view.

pub use crate::traits::Class as ClassTrait;

use vstd::prelude::*;

use crate::text::{clone_strings, push_char};

verus! {

/// One course record.
#[derive(Debug)]
pub struct Class {
    department: String,
    department_name: String,
    discriminator: String,
    title: String,
    description: String,
    credits: String,
    prerequisites: String,
    offered: Vec<String>,
    cross_listings: Vec<String>,
    distributions: Vec<String>,
    url: String,
}

/// The mathematical value of a course record.
pub struct ClassModel {
    pub department: Seq<char>,
    pub department_name: Seq<char>,
    pub discriminator: Seq<char>,
    pub title: Seq<char>,
    pub description: Seq<char>,
    pub credits: Seq<char>,
    pub prerequisites: Seq<char>,
    pub offered: Seq<Seq<char>>,
    pub cross_listings: Seq<Seq<char>>,
    pub distributions: Seq<Seq<char>>,
    pub url: Seq<char>,
}

impl View for Class {
    type V = ClassModel;

    closed spec fn view(&self) -> ClassModel {
        ClassModel {
            department: self.department@,
            department_name: self.department_name@,
            discriminator: self.discriminator@,
            title: self.title@,
            description: self.description@,
            credits: self.credits@,
            prerequisites: self.prerequisites@,
            offered: self.offered.deep_view(),
            cross_listings: self.cross_listings.deep_view(),
            distributions: self.distributions.deep_view(),
            url: self.url@,
        }
    }
}

impl DeepView for Class {
    type V = ClassModel;

    open spec fn deep_view(&self) -> ClassModel {
        self.view()
    }
}

impl Class {
    /// Builds a record from its parts.
    pub fn new(
        department: String,
        department_name: String,
        discriminator: String,
        title: String,
        description: String,
        credits: String,
        prerequisites: String,
        offered: Vec<String>,
        cross_listings: Vec<String>,
        distributions: Vec<String>,
        url: String,
    ) -> (r: Class)
        ensures
            r@ == (ClassModel {
                department: department@,
                department_name: department_name@,
                discriminator: discriminator@,
                title: title@,
                description: description@,
                credits: credits@,
                prerequisites: prerequisites@,
                offered: offered.deep_view(),
                cross_listings: cross_listings.deep_view(),
                distributions: distributions.deep_view(),
                url: url@,
            }),
    {
        Class {
            department,
            department_name,
            discriminator,
            title,
            description,
            credits,
            prerequisites,
            offered,
            cross_listings,
            distributions,
            url,
        }
    }

    /// An identical copy, stated so because derived clones carry no
    /// contract.
    pub fn duplicate(&self) -> (r: Class)
        ensures
            r@ == self@,
    {
        Class {
            department: self.department.clone(),
            department_name: self.department_name.clone(),
            discriminator: self.discriminator.clone(),
            title: self.title.clone(),
            description: self.description.clone(),
            credits: self.credits.clone(),
            prerequisites: self.prerequisites.clone(),
            offered: clone_strings(&self.offered),
            cross_listings: clone_strings(&self.cross_listings),
            distributions: clone_strings(&self.distributions),
            url: self.url.clone(),
        }
    }
}

impl ClassTrait for Class {
    open spec fn spec_department(&self) -> Seq<char> {
        self@.department
    }

    open spec fn spec_department_name(&self) -> Seq<char> {
        self@.department_name
    }

    open spec fn spec_discriminator(&self) -> Seq<char> {
        self@.discriminator
    }

    open spec fn spec_title(&self) -> Seq<char> {
        self@.title
    }

    open spec fn spec_description(&self) -> Seq<char> {
        self@.description
    }

    open spec fn spec_credits(&self) -> Seq<char> {
        self@.credits
    }

    open spec fn spec_prerequisites(&self) -> Seq<char> {
        self@.prerequisites
    }

    open spec fn spec_offered(&self) -> Seq<Seq<char>> {
        self@.offered
    }

    open spec fn spec_cross_listings(&self) -> Seq<Seq<char>> {
        self@.cross_listings
    }

    open spec fn spec_distributions(&self) -> Seq<Seq<char>> {
        self@.distributions
    }

    open spec fn spec_url(&self) -> Seq<char> {
        self@.url
    }

    open spec fn spec_id(&self) -> Seq<char> {
        self@.department + seq![' '] + self@.discriminator
    }

    fn id(&self) -> (r: String) {
        let mut out = self.department.clone();
        push_char(&mut out, ' ');
        out.append(self.discriminator.as_str());
        out
    }

    fn department(&self) -> (r: String) {
        self.department.clone()
    }

    fn department_name(&self) -> (r: String) {
        self.department_name.clone()
    }

    fn discriminator(&self) -> (r: String) {
        self.discriminator.clone()
    }

    fn title(&self) -> (r: String) {
        self.title.clone()
    }

    fn description(&self) -> (r: String) {
        self.description.clone()
    }

    fn credits(&self) -> (r: String) {
        self.credits.clone()
    }

    fn prerequisites(&self) -> (r: String) {
        self.prerequisites.clone()
    }

    fn offered(&self) -> (r: Vec<String>) {
        clone_strings(&self.offered)
    }

    fn cross_listings(&self) -> (r: Vec<String>) {
        clone_strings(&self.cross_listings)
    }

    fn distributions(&self) -> (r: Vec<String>) {
        clone_strings(&self.distributions)
    }

    fn url(&self) -> (r: String) {
        self.url.clone()
    }
}

} // verus!
