//! The data that the Transifex REST API returns, as plain values, and the
//! reading of the GitHub link that a resource's categories record.

use vstd::prelude::*;
use crate::text::{find_char_from, free_of, matches_at, seq_starts_with, str_starts_with};
use super::yaml_file::TxResourceLookupEntry;

verus! {

#[derive(Debug, Clone)]
pub struct TransifexDataAttributes {
    pub categories: Option<Vec<String>>,
}

/// A resource of the REST API.
#[derive(Debug, Clone)]
pub struct TransifexData {
    /// `o:organization_slug:p:project_slug:r:resource_slug`
    pub id: String,
    pub attributes: TransifexDataAttributes,
}

/// One page of a paginated response.
#[derive(Debug, Clone)]
pub struct TransifexPaginationResponse<T> {
    pub data: Vec<T>,
    /// The address of the next page, if there is one.
    pub next: Option<String>,
}

/// A page of results that may point at a next page.
pub trait Paginated: Sized {
    type T;

    fn next_page_url(&self) -> Option<String>;

    fn items(self) -> Vec<Self::T>;
}

impl<T> Paginated for TransifexPaginationResponse<T> {
    type T = T;

    fn next_page_url(&self) -> Option<String> {
        match &self.next {
            Some(n) => Some(n.clone()),
            None => None,
        }
    }

    fn items(self) -> Vec<T> {
        self.data
    }
}

/// A GitHub link category:
/// `github#repository:<organization>/<repository>#branch:<branch>#path:<path>`,
/// with a non-empty organization without `/`, repository and branch without `#`,
/// and a non-empty path without line breaks.
pub open spec fn link_parts(c: Seq<char>, org: Seq<char>, repo: Seq<char>, branch: Seq<char>, path: Seq<char>) -> bool {
    &&& c == "github#repository:"@ + org + seq!['/'] + repo + "#branch:"@ + branch + "#path:"@ + path
    &&& org.len() > 0 && free_of(org, '/', 0, org.len() as int)
    &&& repo.len() > 0 && free_of(repo, '#', 0, repo.len() as int)
    &&& branch.len() > 0 && free_of(branch, '#', 0, branch.len() as int)
    &&& path.len() > 0 && free_of(path, '\n', 0, path.len() as int)
}

/// The entry that a link category gives for resource `id`.
pub open spec fn link_entry(c: Seq<char>, id: Seq<char>, e: TxResourceLookupEntry) -> bool {
    exists|org: Seq<char>, repo: Seq<char>, branch: Seq<char>, path: Seq<char>|
        #[trigger] link_parts(c, org, repo, branch, path) && e.repository@ == org + seq!['/'] + repo && e.branch@
            == branch && e.resource@ == path && e.transifex_resource_id@ == id
}

/// Index of the first category that starts with `github#repository:`, or -1.
pub open spec fn first_link(cs: Seq<String>) -> int
    decreases cs.len(),
{
    if cs.len() == 0 {
        -1
    } else if seq_starts_with(cs[0]@, "github#repository:"@) {
        0
    } else if first_link(cs.drop_first()) < 0 {
        -1
    } else {
        first_link(cs.drop_first()) + 1
    }
}

/// Reads a GitHub link category (see `link_parts`).
pub fn parse_link_category(c: &str, id: &str) -> (r: Option<TxResourceLookupEntry>)
    ensures
        r is Some <==> exists|org: Seq<char>, repo: Seq<char>, branch: Seq<char>, path: Seq<char>|
            #[trigger] link_parts(c@, org, repo, branch, path),
        r is Some ==> link_entry(c@, id@, r->0),
{
    proof {
        reveal_strlit("github#repository:");
        reveal_strlit("#branch:");
        reveal_strlit("#path:");
        reveal_strlit("/");
    }
    let n = c.unicode_len();
    let ghost pre = "github#repository:"@;
    let ghost bra = "#branch:"@;
    let ghost pat = "#path:"@;
    assert(pre.len() == 18 && bra.len() == 8 && pat.len() == 6);
    if !matches_at(c, 0, "github#repository:") {
        proof {
            assert forall|o: Seq<char>, rp: Seq<char>, b: Seq<char>, p: Seq<char>|
                !#[trigger] link_parts(c@, o, rp, b, p) by {
                if link_parts(c@, o, rp, b, p) {
                    assert(c@.subrange(0, 18) =~= pre);
                }
            }
        }
        return None;
    }
    let slash = find_char_from(c, '/', 18);
    let ok1 = slash > 18 && slash < n;
    let h1 = if ok1 { find_char_from(c, '#', slash + 1) } else { n };
    let ok2 = ok1 && h1 > slash + 1 && h1 < n && matches_at(c, h1, "#branch:");
    let b0 = if ok2 { h1 + 8 } else { n };
    let h2 = if ok2 { find_char_from(c, '#', b0) } else { n };
    let ok3 = ok2 && h2 > b0 && h2 < n && matches_at(c, h2, "#path:");
    let path_start = if ok3 { h2 + 6 } else { n };
    let nl = if ok3 { find_char_from(c, '\n', path_start) } else { n };
    let ok = ok3 && path_start < n && nl == n;
    proof {
        assert forall|o: Seq<char>, rp: Seq<char>, b: Seq<char>, p: Seq<char>|
            #[trigger] link_parts(c@, o, rp, b, p) implies ok && slash == 18 + o.len() && h1 == slash + 1 + rp.len()
                && h2 == b0 + b.len() by {
            let s1: int = 18 + o.len() as int;
            let e1: int = s1 + 1 + rp.len() as int;
            let e2: int = e1 + 8 + b.len() as int;
            let whole = pre + o + seq!['/'] + rp + bra + b + pat + p;
            assert(c@ == whole);
            assert(whole[s1 as int] == '/');
            assert forall|i: int| 18 <= i < s1 implies whole[i] != '/' by {
                assert(whole[i] == o[i - 18]);
            }
            assert(slash == s1);
            assert forall|i: int| s1 + 1 <= i < e1 implies whole[i] != '#' by {
                assert(whole[i] == rp[i - s1 - 1]);
            }
            assert(whole[e1 as int] == '#');
            assert(h1 == e1);
            assert(whole.subrange(e1 as int, e1 + 8) =~= bra);
            assert forall|i: int| e1 + 8 <= i < e2 implies whole[i] != '#' by {
                assert(whole[i] == b[i - e1 - 8]);
            }
            assert(whole[e2 as int] == '#');
            assert(h2 == e2);
            assert(whole.subrange(e2 as int, e2 + 6) =~= pat);
            assert forall|i: int| e2 + 6 <= i < whole.len() implies whole[i] != '\n' by {
                assert(whole[i] == p[i - e2 - 6]);
            }
        }
    }
    if !ok {
        return None;
    }
    let org = c.substring_char(18, slash);
    let repo = c.substring_char(slash + 1, h1);
    let branch = c.substring_char(b0, h2);
    let path = c.substring_char(path_start, n);
    let mut repository = String::from_str(org);
    repository.append("/");
    repository.append(repo);
    let e = TxResourceLookupEntry {
        repository,
        branch: String::from_str(branch),
        resource: String::from_str(path),
        transifex_resource_id: String::from_str(id),
    };
    proof {
        assert(c@ =~= pre + org@ + seq!['/'] + repo@ + bra + branch@ + pat + path@) by {
            assert(c@.subrange(0, 18) =~= pre);
            assert(c@.subrange(h1 as int, h1 + 8) =~= bra);
            assert(c@.subrange(h2 as int, h2 + 6) =~= pat);
        }
        assert(link_parts(c@, org@, repo@, branch@, path@));
        assert("/"@ =~= seq!['/']);
    }
    Some(e)
}

impl TransifexData {
    /// The lookup entry that the resource's first GitHub link category gives, if
    /// it has one and it is well formed.
    pub fn parse_linked_resource_category(&self) -> (r: Option<TxResourceLookupEntry>)
        ensures
            match self.attributes.categories {
                None => r is None,
                Some(cs) => {
                    let k = first_link(cs@);
                    &&& k < 0 ==> r is None
                    &&& k >= 0 ==> (r is Some <==> exists|org: Seq<char>, repo: Seq<char>, branch: Seq<char>, path: Seq<char>|
                        #[trigger] link_parts(cs@[k]@, org, repo, branch, path))
                    &&& k >= 0 && r is Some ==> link_entry(cs@[k]@, self.id@, r->0)
                },
            },
    {
        match &self.attributes.categories {
            None => None,
            Some(cs) => {
                let mut i: usize = 0;
                assert(cs@.skip(0) =~= cs@);
                while i < cs.len()
                    invariant
                        self.attributes.categories == Some(*cs),
                        i <= cs@.len(),
                        first_link(cs@) < 0 ==> first_link(cs@.skip(i as int)) < 0,
                        first_link(cs@) >= 0 ==> first_link(cs@.skip(i as int)) >= 0 && first_link(cs@) == i + first_link(cs@.skip(i as int)),
                    decreases cs@.len() - i,
                {
                    assert(cs@.skip(i as int).drop_first() =~= cs@.skip(i + 1));
                    assert(cs@.skip(i as int)[0] == cs@[i as int]);
                    if str_starts_with(cs[i].as_str(), "github#repository:") {
                        return parse_link_category(cs[i].as_str(), self.id.as_str());
                    }
                    i = i + 1;
                }
                None
            },
        }
    }
}

} // verus!
