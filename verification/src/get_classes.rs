//! Fetched catalog pages and the cache reconciliation that decides which
//! pages are served from cache and which links still need fetching. The
//! fetching itself is left to the caller; this module only decides.

use vstd::prelude::*;

use crate::text::str_eq;

verus! {

/// Relies on `reqwest::Error` being an ordinary owned type; the library
/// carries such a value through without reading it.
#[verifier::external_type_specification]
#[verifier::external_body]
pub struct ExReqwestError(reqwest::Error);

/// Why querying class pages failed.
#[derive(Debug)]
pub enum ClassQueryError {
    /// The transport failed; the underlying error is carried through.
    Reqwest { source: reqwest::Error },
    /// A cached page's link is no longer among the links to fetch.
    CachedLinkNotFound { cached_link: String },
}

/// One fetched catalog page: its link and its raw text.
#[derive(Debug)]
pub struct ClassPage {
    pub link: String,
    pub text: String,
}

/// The mathematical value of a page.
pub struct ClassPageModel {
    pub link: Seq<char>,
    pub text: Seq<char>,
}

impl View for ClassPage {
    type V = ClassPageModel;

    open spec fn view(&self) -> ClassPageModel {
        ClassPageModel { link: self.link@, text: self.text@ }
    }
}

impl DeepView for ClassPage {
    type V = ClassPageModel;

    open spec fn deep_view(&self) -> ClassPageModel {
        self.view()
    }
}

impl ClassPage {
    /// An identical copy, stated so because derived clones carry no
    /// contract.
    pub fn duplicate(&self) -> (r: ClassPage)
        ensures
            r@ == self@,
    {
        ClassPage { link: self.link.clone(), text: self.text.clone() }
    }
}

/// The position of the first link equal to `key`, or the length if none.
pub open spec fn spec_position(links: Seq<Seq<char>>, key: Seq<char>) -> int
    decreases links.len(),
{
    if links.len() == 0 {
        0
    } else if links.first() == key {
        0
    } else {
        1 + spec_position(links.drop_first(), key)
    }
}

/// If position `k` has no match before it and a match at it (or is the
/// end), it is the first matching position.
proof fn lemma_position_is(links: Seq<Seq<char>>, key: Seq<char>, k: int)
    requires
        0 <= k <= links.len(),
        forall|j: int| 0 <= j < k ==> links[j] != key,
        k < links.len() ==> links[k] == key,
    ensures
        spec_position(links, key) == k,
    decreases links.len(),
{
    if links.len() > 0 && k > 0 {
        assert(links.first() != key);
        assert forall|j: int| 0 <= j < k - 1 implies links.drop_first()[j] != key by {
            assert(links.drop_first()[j] == links[j + 1]);
        }
        if k - 1 < links.drop_first().len() {
            assert(links.drop_first()[k - 1] == links[k]);
        }
        lemma_position_is(links.drop_first(), key, k - 1);
    }
}

/// What reconciling a cache against the links to fetch yields: the links
/// still to fetch, the cached pages served (in cache order), and the first
/// cached link no longer wanted, where one exists — reconciliation stops
/// there.
pub struct ReconcileModel {
    pub to_fetch: Seq<Seq<char>>,
    pub hits: Seq<ClassPageModel>,
    pub missing: Option<Seq<char>>,
}

/// Reconciliation, page by page: a cached page whose link is still wanted
/// is served and its link dropped from the fetch list; the first cached
/// page whose link is not wanted stops the process.
pub open spec fn spec_reconcile(links: Seq<Seq<char>>, cache: Seq<ClassPageModel>) -> ReconcileModel
    decreases cache.len(),
{
    if cache.len() == 0 {
        ReconcileModel { to_fetch: links, hits: Seq::empty(), missing: None }
    } else {
        let p = spec_position(links, cache.first().link);
        if p < links.len() {
            let rest = spec_reconcile(links.remove(p), cache.drop_first());
            ReconcileModel {
                to_fetch: rest.to_fetch,
                hits: seq![cache.first()] + rest.hits,
                missing: rest.missing,
            }
        } else {
            ReconcileModel { to_fetch: links, hits: Seq::empty(), missing: Some(cache.first().link) }
        }
    }
}

/// The outcome of reconciling a cache against the links to fetch.
pub struct CacheReconciliation {
    /// The links that still have to be fetched.
    pub to_fetch: Vec<String>,
    /// The cached pages that are still wanted, in cache order.
    pub hits: Vec<ClassPage>,
    /// The first cached link that is no longer among the links to fetch,
    /// where one exists; reconciliation stopped there.
    pub missing: Option<String>,
}

/// The position of the first link equal to `key`, if any.
fn find_link(links: &Vec<String>, key: &str) -> (r: Option<usize>)
    ensures
        match r {
            Some(i) => i < links@.len() && spec_position(links.deep_view(), key@) == i as int,
            None => spec_position(links.deep_view(), key@) == links@.len(),
        },
{
    let n = links.len();
    for i in 0..n
        invariant
            n == links@.len(),
            forall|j: int| 0 <= j < i ==> links.deep_view()[j] != key@,
    {
        if str_eq(links[i].as_str(), key) {
            proof {
                lemma_position_is(links.deep_view(), key@, i as int);
            }
            return Some(i);
        }
    }
    proof {
        lemma_position_is(links.deep_view(), key@, links@.len() as int);
    }
    None
}

/// Reconciles cached pages against the links to fetch, as `spec_reconcile`
/// lays out: served pages leave the fetch list, and the first cached page
/// whose link is no longer wanted stops the process.
#[verifier::loop_isolation(false)]
pub fn reconcile_cache(links: Vec<String>, cache: &Vec<ClassPage>) -> (r: CacheReconciliation)
    ensures
        ({
            let m = spec_reconcile(links.deep_view(), cache.deep_view());
            &&& r.to_fetch.deep_view() == m.to_fetch
            &&& r.hits.deep_view() == m.hits
            &&& r.missing.deep_view() == m.missing
        }),
{
    let ghost links0 = links.deep_view();
    let ghost cache_dv = cache.deep_view();
    let mut remaining = links;
    let mut hits: Vec<ClassPage> = Vec::new();
    let n = cache.len();
    let mut i: usize = 0;
    proof {
        assert(cache_dv.skip(0) =~= cache_dv);
        assert(hits.deep_view() =~= Seq::<ClassPageModel>::empty());
        assert(hits.deep_view() + spec_reconcile(remaining.deep_view(), cache_dv).hits
            =~= spec_reconcile(remaining.deep_view(), cache_dv).hits);
    }
    while i < n
        invariant
            i <= n,
            n == cache@.len(),
            cache_dv == cache.deep_view(),
            ({
                let full = spec_reconcile(links0, cache_dv);
                let rest = spec_reconcile(remaining.deep_view(), cache_dv.skip(i as int));
                &&& full.to_fetch == rest.to_fetch
                &&& full.hits == hits.deep_view() + rest.hits
                &&& full.missing == rest.missing
            }),
        decreases n - i,
    {
        let ghost rem_dv = remaining.deep_view();
        let ghost tail = cache_dv.skip(i as int);
        proof {
            assert(tail.first() == cache_dv[i as int]);
            assert(tail.drop_first() =~= cache_dv.skip(i + 1));
            assert(cache_dv[i as int] == cache@[i as int]@);
        }
        match find_link(&remaining, cache[i].link.as_str()) {
            Some(p) => {
                let page = cache[i].duplicate();
                let ghost old_hits = hits.deep_view();
                hits.push(page);
                let _ = remaining.remove(p);
                proof {
                    assert(remaining.deep_view() =~= rem_dv.remove(p as int));
                    assert(hits.deep_view() =~= old_hits.push(cache_dv[i as int]));
                    let rest = spec_reconcile(rem_dv.remove(p as int), cache_dv.skip(i + 1));
                    assert(spec_reconcile(rem_dv, tail).hits == seq![tail.first()] + rest.hits);
                    assert(old_hits.push(cache_dv[i as int]) + rest.hits =~= old_hits + (seq![
                        tail.first(),
                    ] + rest.hits));
                }
            },
            None => {
                let missing = Some(cache[i].link.clone());
                proof {
                    let rest = spec_reconcile(rem_dv, tail);
                    assert(rest.missing == Some(cache_dv[i as int].link));
                    assert(rest.to_fetch == rem_dv);
                    assert(rest.hits =~= Seq::<ClassPageModel>::empty());
                    assert(hits.deep_view() + rest.hits =~= hits.deep_view());
                    assert(missing.deep_view() == Some(cache_dv[i as int].link));
                }
                return CacheReconciliation { to_fetch: remaining, hits, missing };
            },
        }
        i = i + 1;
    }
    proof {
        assert(cache_dv.skip(n as int) =~= Seq::<ClassPageModel>::empty());
        let rest = spec_reconcile(remaining.deep_view(), cache_dv.skip(n as int));
        assert(rest.hits =~= Seq::<ClassPageModel>::empty());
        assert(hits.deep_view() + rest.hits =~= hits.deep_view());
        assert(Option::<String>::None.deep_view() == Option::<Seq<char>>::None);
    }
    CacheReconciliation { to_fetch: remaining, hits, missing: None }
}

} // verus!
