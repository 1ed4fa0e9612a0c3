//! The in-memory catalog: course records, the department table derived from
//! them, and the queries the chat commands are answered from.

pub use crate::traits::Catalog as CatalogTrait;

use rand::Rng;
use vstd::prelude::*;

use crate::class::Class;
use crate::text::{clean, spec_clean, str_eq};
use crate::traits::{spec_department_query, Class as ClassTrait};

verus! {

// ---------------------------------------------------------------------------
// Lexicographic order on character sequences, for sorting department codes
// and course identifiers.
// ---------------------------------------------------------------------------

/// `a` comes no later than `b` in lexicographic character order.
pub open spec fn spec_lex_le(a: Seq<char>, b: Seq<char>) -> bool
    decreases a.len(),
{
    if a.len() == 0 {
        true
    } else if b.len() == 0 {
        false
    } else if a[0] != b[0] {
        a[0] < b[0]
    } else {
        spec_lex_le(a.drop_first(), b.drop_first())
    }
}

/// The order is total.
pub proof fn lemma_lex_le_total(a: Seq<char>, b: Seq<char>)
    ensures
        spec_lex_le(a, b) || spec_lex_le(b, a),
    decreases a.len(),
{
    if a.len() > 0 && b.len() > 0 && a[0] == b[0] {
        lemma_lex_le_total(a.drop_first(), b.drop_first());
    }
}

/// The order is transitive.
pub proof fn lemma_lex_le_trans(a: Seq<char>, b: Seq<char>, c: Seq<char>)
    requires
        spec_lex_le(a, b),
        spec_lex_le(b, c),
    ensures
        spec_lex_le(a, c),
    decreases a.len(),
{
    if a.len() > 0 && b.len() > 0 && c.len() > 0 && a[0] == b[0] && b[0] == c[0] {
        lemma_lex_le_trans(a.drop_first(), b.drop_first(), c.drop_first());
    }
}

/// Decides the lexicographic order on strings.
pub fn str_lex_le(a: &str, b: &str) -> (r: bool)
    ensures
        r == spec_lex_le(a@, b@),
{
    let an = a.unicode_len();
    let bn = b.unicode_len();
    let mut i: usize = 0;
    proof {
        assert(a@.skip(0) =~= a@);
        assert(b@.skip(0) =~= b@);
    }
    while i < an && i < bn
        invariant
            i <= an,
            i <= bn,
            an == a@.len(),
            bn == b@.len(),
            spec_lex_le(a@, b@) == spec_lex_le(a@.skip(i as int), b@.skip(i as int)),
            forall|j: int| 0 <= j < i ==> a@[j] == b@[j],
        decreases an - i,
    {
        let ca = a.get_char(i);
        let cb = b.get_char(i);
        proof {
            assert(a@.skip(i as int)[0] == a@[i as int]);
            assert(b@.skip(i as int)[0] == b@[i as int]);
            assert(a@.skip(i as int).drop_first() =~= a@.skip(i + 1));
            assert(b@.skip(i as int).drop_first() =~= b@.skip(i + 1));
        }
        if ca != cb {
            return ca < cb;
        }
        i = i + 1;
    }
    proof {
        if i >= an {
            assert(a@.skip(i as int).len() == 0);
        } else {
            assert(b@.skip(i as int).len() == 0);
            assert(a@.skip(i as int).len() > 0);
        }
    }
    an <= bn
}

// ---------------------------------------------------------------------------
// The catalog.
// ---------------------------------------------------------------------------

/// Relies on `rand::thread_rng` and `rand::Rng::gen_range`: a random index
/// below `n`, uniformly sampled. `gen_range` panics only on an empty range,
/// which `n >= 1` rules out; nothing more is assumed of the value drawn.
#[verifier::external_body]
fn random_index(n: usize) -> (r: usize)
    requires
        n >= 1,
    ensures
        r < n,
{
    rand::thread_rng().gen_range(0..n)
}

/// The department table derived from the records, in order of first
/// occurrence: one pair of code and full name per department code.
pub open spec fn spec_departments_of(classes: Seq<Class>) -> Seq<(Seq<char>, Seq<char>)>
    decreases classes.len(),
{
    if classes.len() == 0 {
        Seq::empty()
    } else {
        let pre = spec_departments_of(classes.drop_last());
        if spec_pairs_have_key(pre, classes.last().spec_department()) {
            pre
        } else {
            pre.push((classes.last().spec_department(), classes.last().spec_department_name()))
        }
    }
}

/// Whether a pair sequence holds the key.
pub open spec fn spec_pairs_have_key(pairs: Seq<(Seq<char>, Seq<char>)>, key: Seq<char>) -> bool {
    exists|i: int| 0 <= i < pairs.len() && pairs[i].0 == key
}

/// Law: the derived department table holds one entry per department code.
pub proof fn lemma_departments_unique(classes: Seq<Class>)
    ensures
        ({
            let pairs = spec_departments_of(classes);
            forall|i: int, j: int|
                0 <= i < j < pairs.len() ==> (#[trigger] pairs[i]).0 != (#[trigger] pairs[j]).0
        }),
    decreases classes.len(),
{
    if classes.len() > 0 {
        lemma_departments_unique(classes.drop_last());
        let pre = spec_departments_of(classes.drop_last());
        let pairs = spec_departments_of(classes);
        if !spec_pairs_have_key(pre, classes.last().spec_department()) {
            assert forall|i: int, j: int| 0 <= i < j < pairs.len() implies (
            #[trigger] pairs[i]).0 != (#[trigger] pairs[j]).0 by {
                if j == pairs.len() - 1 {
                    assert(!(exists|k: int| 0 <= k < pre.len() && pre[k].0 == pairs[j].0));
                    assert(pairs[i] == pre[i]);
                }
            }
        }
    }
}

/// Whether a pair vector holds the key.
fn pairs_have_key(pairs: &Vec<(String, String)>, key: &str) -> (r: bool)
    ensures
        r == spec_pairs_have_key(pairs.deep_view(), key@),
{
    let n = pairs.len();
    for i in 0..n
        invariant
            n == pairs@.len(),
            forall|j: int| 0 <= j < i ==> pairs.deep_view()[j].0 != key@,
    {
        proof {
            assert(pairs.deep_view()[i as int] == (pairs@[i as int].0@, pairs@[i as int].1@));
        }
        if str_eq(pairs[i].0.as_str(), key) {
            return true;
        }
    }
    false
}

/// An in-memory catalog of course records, with the department table
/// derived from them.
pub struct Catalog {
    classes: Vec<Class>,
    departments: Vec<(String, String)>,
}

impl Catalog {
    /// The department table, in order of first occurrence.
    pub closed spec fn spec_departments(&self) -> Seq<(Seq<char>, Seq<char>)> {
        self.departments.deep_view()
    }

    /// Builds a catalog from parsed course records, deriving the department
    /// table: the first record of each department code contributes the
    /// code's full name.
    pub fn new(classes: Vec<Class>) -> (r: Catalog)
        ensures
            r.spec_classes() == classes@,
            r.spec_departments() == spec_departments_of(classes@),
    {
        let mut departments: Vec<(String, String)> = Vec::new();
        let n = classes.len();
        proof {
            assert(departments.deep_view() =~= Seq::<(Seq<char>, Seq<char>)>::empty());
            assert(departments.deep_view() =~= spec_departments_of(classes@.take(0)));
        }
        for i in 0..n
            invariant
                n == classes@.len(),
                departments.deep_view() == spec_departments_of(classes@.take(i as int)),
        {
            let code = classes[i].department();
            proof {
                assert(classes@.take(i + 1).drop_last() =~= classes@.take(i as int));
                assert(classes@.take(i + 1).last() == classes@[i as int]);
            }
            if !pairs_have_key(&departments, code.as_str()) {
                let name = classes[i].department_name();
                let ghost old_departments = departments.deep_view();
                let ghost pair_view = (code@, name@);
                departments.push((code, name));
                proof {
                    assert(departments.deep_view() =~= old_departments.push(pair_view));
                }
            }
            proof {
                assert(departments.deep_view() =~= spec_departments_of(classes@.take(i + 1)));
            }
        }
        proof {
            assert(classes@.take(n as int) =~= classes@);
        }
        Catalog { classes, departments }
    }
}

impl CatalogTrait<Class> for Catalog {
    closed spec fn spec_classes(&self) -> Seq<Class> {
        self.classes@
    }

    fn query_by_id(&self, id: &str) -> (r: Option<&Class>) {
        let key = clean(id);
        let n = self.classes.len();
        for k in 0..n
            invariant
                n == self.classes@.len(),
                key@ == spec_clean(id@),
                forall|j: int|
                    0 <= j < k ==> spec_clean(#[trigger] self.classes@[j].spec_id()) != spec_clean(
                        id@,
                    ),
        {
            let candidate = clean(self.classes[k].id().as_str());
            if candidate == key {
                let r = &self.classes[k];
                proof {
                    let kk = k as int;
                    assert(*r == self.spec_classes()[kk]);
                    assert(spec_clean(self.spec_classes()[kk].spec_id()) == spec_clean(id@));
                }
                return Some(r);
            }
        }
        None
    }

    fn query_by_department(&self, code: &str) -> (r: Vec<&Class>) {
        let key = clean(code);
        let n = self.classes.len();
        let mut out: Vec<&Class> = Vec::new();
        let ghost full = self.classes@;
        for k in 0..n
            invariant
                n == full.len(),
                full == self.classes@,
                key@ == spec_clean(code@),
                out@.len() == spec_department_query(full.take(k as int), code@).len(),
                forall|j: int|
                    0 <= j < out@.len() ==> *out@[j] == spec_department_query(
                        full.take(k as int),
                        code@,
                    )[j],
        {
            proof {
                assert(full.take(k + 1).drop_last() =~= full.take(k as int));
                assert(full.take(k + 1).last() == full[k as int]);
            }
            if key.as_str().is_empty() {
                out.push(&self.classes[k]);
            } else {
                let dept = clean(self.classes[k].department().as_str());
                if dept == key {
                    out.push(&self.classes[k]);
                }
            }
        }
        proof {
            assert(full.take(n as int) =~= full);
        }
        out
    }
}

// ---------------------------------------------------------------------------
// The department listing, sorted by code.
// ---------------------------------------------------------------------------

/// Pairs sorted by their first component in lexicographic order.
pub open spec fn spec_pairs_sorted(s: Seq<(Seq<char>, Seq<char>)>) -> bool {
    forall|i: int, j: int|
        0 <= i < j < s.len() ==> spec_lex_le(#[trigger] s[i].0, #[trigger] s[j].0)
}

/// Copies a vector of string pairs, element for element.
fn clone_pairs(v: &Vec<(String, String)>) -> (r: Vec<(String, String)>)
    ensures
        r@ == v@,
{
    let mut out: Vec<(String, String)> = Vec::new();
    let n = v.len();
    for i in 0..n
        invariant
            n == v@.len(),
            out@ == v@.take(i as int),
    {
        out.push((v[i].0.clone(), v[i].1.clone()));
        proof {
            assert(out@ =~= v@.take(i + 1));
        }
    }
    proof {
        assert(v@.take(n as int) =~= v@);
    }
    out
}

impl Catalog {
    /// The department table as pairs of code and full name, sorted by code.
    pub fn departments(&self) -> (r: Vec<(String, String)>)
        ensures
            r.deep_view().to_multiset() == self.spec_departments().to_multiset(),
            spec_pairs_sorted(r.deep_view()),
    {
        broadcast use vstd::seq_lib::group_to_multiset_ensures;
        broadcast use vstd::multiset::group_multiset_axioms;

        let mut remaining = clone_pairs(&self.departments);
        let mut out: Vec<(String, String)> = Vec::new();
        proof {
            assert(remaining.deep_view() =~= self.spec_departments());
            assert(out.deep_view() =~= Seq::<(Seq<char>, Seq<char>)>::empty());
            assert(out.deep_view().to_multiset().add(remaining.deep_view().to_multiset())
                =~= self.spec_departments().to_multiset());
        }
        while remaining.len() > 0
            invariant
                out.deep_view().to_multiset().add(remaining.deep_view().to_multiset())
                    == self.spec_departments().to_multiset(),
                spec_pairs_sorted(out.deep_view()),
                forall|i: int, j: int|
                    0 <= i < out.deep_view().len() && 0 <= j < remaining.deep_view().len()
                        ==> spec_lex_le(
                        #[trigger] out.deep_view()[i].0,
                        #[trigger] remaining.deep_view()[j].0,
                    ),
            decreases remaining@.len(),
        {
            let m = remaining.len();
            let mut best: usize = 0;
            proof {
                lemma_lex_le_total(remaining.deep_view()[0].0, remaining.deep_view()[0].0);
            }
            for k in 1..m
                invariant
                    m == remaining@.len(),
                    best < m,
                    forall|j: int|
                        0 <= j < k ==> spec_lex_le(
                            remaining.deep_view()[best as int].0,
                            #[trigger] remaining.deep_view()[j].0,
                        ),
            {
                proof {
                    lemma_lex_le_total(
                        remaining.deep_view()[k as int].0,
                        remaining.deep_view()[best as int].0,
                    );
                }
                if str_lex_le(remaining[k].0.as_str(), remaining[best].0.as_str()) {
                    let ghost old_best = best as int;
                    best = k;
                    proof {
                        assert forall|j: int| 0 <= j < k + 1 implies spec_lex_le(
                            remaining.deep_view()[best as int].0,
                            #[trigger] remaining.deep_view()[j].0,
                        ) by {
                            lemma_lex_le_total(
                                remaining.deep_view()[k as int].0,
                                remaining.deep_view()[k as int].0,
                            );
                            if j < k {
                                lemma_lex_le_trans(
                                    remaining.deep_view()[k as int].0,
                                    remaining.deep_view()[old_best].0,
                                    remaining.deep_view()[j].0,
                                );
                            }
                        }
                    }
                }
            }
            let ghost old_rem = remaining.deep_view();
            let ghost old_out = out.deep_view();
            let ghost chosen = old_rem[best as int];
            let pair = remaining.remove(best);
            out.push(pair);
            proof {
                broadcast use vstd::seq_lib::group_to_multiset_ensures;
                broadcast use vstd::multiset::group_multiset_axioms;

                assert(remaining.deep_view() =~= old_rem.remove(best as int));
                assert(out.deep_view() =~= old_out.push(chosen));
                assert(old_rem.contains(chosen)) by {
                    assert(old_rem[best as int] == chosen && 0 <= best as int && (best as int) < old_rem.len());
                }
                assert(old_rem.to_multiset().count(chosen) > 0);
                assert(old_out.push(chosen).to_multiset() =~= old_out.to_multiset().insert(chosen));
                assert(old_rem.remove(best as int).to_multiset() =~= old_rem.to_multiset().remove(
                    chosen,
                ));
                assert(out.deep_view().to_multiset().add(remaining.deep_view().to_multiset())
                    =~= self.spec_departments().to_multiset());
                assert forall|i: int, j: int|
                    0 <= i < out.deep_view().len() && 0 <= j
                        < remaining.deep_view().len() implies spec_lex_le(
                    #[trigger] out.deep_view()[i].0,
                    #[trigger] remaining.deep_view()[j].0,
                ) by {
                    assert(remaining.deep_view()[j] == if j < best as int {
                        old_rem[j]
                    } else {
                        old_rem[j + 1]
                    });
                }
            }
        }
        proof {
            assert(remaining.deep_view() =~= Seq::<(Seq<char>, Seq<char>)>::empty());
            assert(out.deep_view().to_multiset().add(remaining.deep_view().to_multiset())
                =~= out.deep_view().to_multiset());
        }
        out
    }
}

// ---------------------------------------------------------------------------
// Collecting the classes of several departments, sorted by id with duplicate
// ids dropped, and picking one at random.
// ---------------------------------------------------------------------------

/// Class references sorted by id in lexicographic order.
pub open spec fn spec_refs_sorted(s: Seq<&Class>) -> bool {
    forall|i: int, j: int|
        0 <= i < j < s.len() ==> spec_lex_le(
            (#[trigger] s[i]).spec_id(),
            (#[trigger] s[j]).spec_id(),
        )
}

/// Class references with pairwise distinct ids.
pub open spec fn spec_refs_distinct(s: Seq<&Class>) -> bool {
    forall|i: int, j: int|
        0 <= i < j < s.len() ==> (#[trigger] s[i]).spec_id() != (#[trigger] s[j]).spec_id()
}

/// Whether some reference in the sequence carries the id.
pub open spec fn spec_has_id(s: Seq<&Class>, id: Seq<char>) -> bool {
    exists|i: int| 0 <= i < s.len() && (#[trigger] s[i]).spec_id() == id
}

/// Inserts a class reference into an id-sorted, id-distinct vector, keeping
/// it sorted and dropping the insertion when the id is already present.
#[verifier::loop_isolation(false)]
fn insert_unique_sorted<'a>(out: &mut Vec<&'a Class>, c: &'a Class)
    requires
        spec_refs_sorted(old(out)@),
        spec_refs_distinct(old(out)@),
    ensures
        spec_refs_sorted(final(out)@),
        spec_refs_distinct(final(out)@),
        forall|x: &Class| final(out)@.contains(x) ==> old(out)@.contains(x) || x == c,
        forall|id: Seq<char>|
            spec_has_id(final(out)@, id) <==> (spec_has_id(old(out)@, id) || id == c.spec_id()),
{
    let cid = c.id();
    let n = out.len();
    for q in 0..n
        invariant
            n == out@.len(),
            out@ == old(out)@,
            cid@ == c.spec_id(),
            forall|j: int| 0 <= j < q ==> (#[trigger] out@[j]).spec_id() != c.spec_id(),
    {
        if str_eq(out[q].id().as_str(), cid.as_str()) {
            proof {
                assert(spec_has_id(out@, c.spec_id())) by {
                    assert((out@[q as int]).spec_id() == c.spec_id());
                }
            }
            return ;
        }
    }
    let mut p: usize = 0;
    while p < out.len() && str_lex_le(out[p].id().as_str(), cid.as_str())
        invariant
            p <= out@.len(),
            out@ == old(out)@,
            cid@ == c.spec_id(),
            forall|j: int| 0 <= j < p ==> spec_lex_le((#[trigger] out@[j]).spec_id(), c.spec_id()),
        decreases out@.len() - p,
    {
        p = p + 1;
    }
    let ghost old_seq = out@;
    proof {
        if (p as int) < old_seq.len() {
            lemma_lex_le_total(old_seq[p as int].spec_id(), c.spec_id());
        }
        assert forall|j: int| p <= j < old_seq.len() implies spec_lex_le(
            c.spec_id(),
            (#[trigger] old_seq[j]).spec_id(),
        ) by {
            if j > p {
                lemma_lex_le_trans(c.spec_id(), old_seq[p as int].spec_id(), old_seq[j].spec_id());
            }
        }
    }
    out.insert(p, c);
    proof {
        let new_seq = out@;
        assert forall|i: int| 0 <= i < new_seq.len() implies (new_seq[i] == if i < p as int {
            old_seq[i]
        } else if i == p as int {
            c
        } else {
            old_seq[i - 1]
        }) by {}
        assert forall|i: int, j: int| 0 <= i < j < new_seq.len() implies spec_lex_le(
            (#[trigger] new_seq[i]).spec_id(),
            (#[trigger] new_seq[j]).spec_id(),
        ) by {}
        assert forall|i: int, j: int| 0 <= i < j < new_seq.len() implies (
        #[trigger] new_seq[i]).spec_id() != (#[trigger] new_seq[j]).spec_id() by {}
        assert forall|id: Seq<char>|
            spec_has_id(new_seq, id) <==> (spec_has_id(old_seq, id) || id == c.spec_id()) by {
            if spec_has_id(old_seq, id) {
                let w = choose|i: int| 0 <= i < old_seq.len() && (#[trigger] old_seq[i]).spec_id()
                    == id;
                if w < p as int {
                    assert((new_seq[w]).spec_id() == id);
                } else {
                    assert((new_seq[w + 1]).spec_id() == id);
                }
            }
            if id == c.spec_id() {
                assert((new_seq[p as int]).spec_id() == id);
            }
        }
    }
}

impl Catalog {
    /// The classes of the given departments, merged: sorted by id, one class
    /// per id, each drawn from one of the department queries.
    pub fn department_matches<'a>(&'a self, codes: &Vec<String>) -> (r: Vec<&'a Class>)
        ensures
            spec_refs_sorted(r@),
            spec_refs_distinct(r@),
            forall|x: &Class|
                r@.contains(x) ==> exists|d: int|
                    0 <= d < codes@.len() && spec_department_query(
                        self.spec_classes(),
                        codes.deep_view()[d],
                    ).contains(*x),
            forall|d: int, k: int|
                0 <= d < codes@.len() && 0 <= k < spec_department_query(
                    self.spec_classes(),
                    codes.deep_view()[d],
                ).len() ==> spec_has_id(
                    r@,
                    spec_department_query(self.spec_classes(), codes.deep_view()[d])[k].spec_id(),
                ),
    {
        let mut out: Vec<&Class> = Vec::new();
        let nd = codes.len();
        for d in 0..nd
            invariant
                nd == codes@.len(),
                spec_refs_sorted(out@),
                spec_refs_distinct(out@),
                forall|x: &Class|
                    out@.contains(x) ==> exists|dd: int|
                        0 <= dd < codes@.len() && spec_department_query(
                            self.spec_classes(),
                            codes.deep_view()[dd],
                        ).contains(*x),
                forall|dd: int, k: int|
                    0 <= dd < d && 0 <= k < spec_department_query(
                        self.spec_classes(),
                        codes.deep_view()[dd],
                    ).len() ==> spec_has_id(
                        out@,
                        spec_department_query(
                            self.spec_classes(),
                            codes.deep_view()[dd],
                        )[k].spec_id(),
                    ),
        {
            let matches = self.query_by_department(codes[d].as_str());
            proof {
                assert(codes.deep_view()[d as int] == codes@[d as int]@);
            }
            let nm = matches.len();
            for k in 0..nm
                invariant
                    nd == codes@.len(),
                    nm == matches@.len(),
                    0 <= d < nd,
                    matches@.len() == spec_department_query(
                        self.spec_classes(),
                        codes.deep_view()[d as int],
                    ).len(),
                    forall|j: int|
                        0 <= j < matches@.len() ==> *(#[trigger] matches@[j])
                            == spec_department_query(
                            self.spec_classes(),
                            codes.deep_view()[d as int],
                        )[j],
                    spec_refs_sorted(out@),
                    spec_refs_distinct(out@),
                    forall|x: &Class|
                        out@.contains(x) ==> exists|dd: int|
                            0 <= dd < codes@.len() && spec_department_query(
                                self.spec_classes(),
                                codes.deep_view()[dd],
                            ).contains(*x),
                    forall|dd: int, kk: int|
                        0 <= dd < d && 0 <= kk < spec_department_query(
                            self.spec_classes(),
                            codes.deep_view()[dd],
                        ).len() ==> spec_has_id(
                            out@,
                            spec_department_query(
                                self.spec_classes(),
                                codes.deep_view()[dd],
                            )[kk].spec_id(),
                        ),
                    forall|kk: int|
                        0 <= kk < k ==> spec_has_id(
                            out@,
                            spec_department_query(
                                self.spec_classes(),
                                codes.deep_view()[d as int],
                            )[kk].spec_id(),
                        ),
            {
                let ghost old_out = out@;
                let c = matches[k];
                insert_unique_sorted(&mut out, c);
                proof {
                    let q = spec_department_query(self.spec_classes(), codes.deep_view()[d as int]);
                    assert(*c == q[k as int]);
                    assert(q.contains(*c)) by {
                        assert(q[k as int] == *c);
                    }
                    assert forall|x: &Class| out@.contains(x) implies exists|dd: int|
                        0 <= dd < codes@.len() && spec_department_query(
                            self.spec_classes(),
                            codes.deep_view()[dd],
                        ).contains(*x) by {
                        if old_out.contains(x) {
                        } else {
                            assert(x == c);
                            assert(spec_department_query(
                                self.spec_classes(),
                                codes.deep_view()[d as int],
                            ).contains(*x));
                        }
                    }
                }
            }
        }
        out
    }

    /// A uniformly random class among the departments' matches, or None
    /// when no department query yields a class.
    pub fn random_class<'a>(&'a self, codes: &Vec<String>) -> (r: Option<&'a Class>)
        ensures
            match r {
                Some(c) => exists|d: int|
                    0 <= d < codes@.len() && spec_department_query(
                        self.spec_classes(),
                        codes.deep_view()[d],
                    ).contains(*c),
                None => forall|d: int|
                    0 <= d < codes@.len() ==> spec_department_query(
                        self.spec_classes(),
                        #[trigger] codes.deep_view()[d],
                    ).len() == 0,
            },
    {
        let matches = self.department_matches(codes);
        if matches.len() == 0 {
            proof {
                assert forall|d: int| 0 <= d < codes@.len() implies spec_department_query(
                    self.spec_classes(),
                    #[trigger] codes.deep_view()[d],
                ).len() == 0 by {
                    let q = spec_department_query(self.spec_classes(), codes.deep_view()[d]);
                    if q.len() > 0 {
                        assert(spec_has_id(matches@, q[0].spec_id()));
                        let w = choose|i: int|
                            0 <= i < matches@.len() && (#[trigger] matches@[i]).spec_id()
                                == q[0].spec_id();
                        assert(false);
                    }
                }
            }
            None
        } else {
            let idx = random_index(matches.len());
            let c = matches[idx];
            proof {
                assert(matches@.contains(c)) by {
                    assert(matches@[idx as int] == c);
                }
            }
            Some(c)
        }
    }
}

} // verus!
