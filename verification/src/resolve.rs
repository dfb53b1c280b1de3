//! Choosing the one release that a version specifier asks for.

use vstd::prelude::*;
use crate::error::ToolError;
use crate::models::{text_bytes, Release};
use crate::range::{
    comparator_views, comparators_at, is_op_byte, parse_comparators, ComparatorView, VersionReq,
    CARET, EQUALS, GREATER, LESS, TILDE,
};
use crate::version::{
    lemma_precedes_irreflexive, lemma_precedes_total, lemma_precedes_trans, parse_tag, parse_version, prefix_len, Version,
    VersionView, LETTER_V,
};

verus! {

/// What a user asks for.
#[derive(Clone, Debug)]
pub enum VersionSpec {
    /// The release with this tag, a leading `v` aside.
    Exact(String),
    /// The highest version within a range.
    Range(VersionReq),
    /// The newest release that is not a prerelease.
    Latest,
}

/// What a `VersionSpec` stands for.
pub enum VersionSpecView {
    Exact(Seq<char>),
    Range(Seq<ComparatorView>),
    Latest,
}

impl View for VersionSpec {
    type V = VersionSpecView;

    open spec fn view(&self) -> VersionSpecView {
        match *self {
            VersionSpec::Exact(tag) => VersionSpecView::Exact(tag@),
            VersionSpec::Range(req) => VersionSpecView::Range(comparator_views(req.comparators@)),
            VersionSpec::Latest => VersionSpecView::Latest,
        }
    }
}

/// The specifier that a text writes: the word `latest`; a text that
/// begins with an operator is a range, a list of full comparators, or
/// nothing where it does not read as one (one with a version of fewer
/// than three numbers does not); any other text is the tag of a release.
pub open spec fn spec_of_text(text: Seq<char>) -> Option<VersionSpecView> {
    let b = vstd::utf8::encode_utf8(text);
    if text == "latest"@ {
        Some(VersionSpecView::Latest)
    } else if b.len() > 0 && is_op_byte(b[0]) {
        match comparators_at(b, 0) {
            Some(cs) => Some(VersionSpecView::Range(cs)),
            None => None,
        }
    } else {
        Some(VersionSpecView::Exact(text))
    }
}

impl VersionSpec {
    /// Reads a specifier from the text that a user wrote.
    pub fn parse(text: &String) -> (r: Option<VersionSpec>)
        ensures
            match r {
                Some(spec) => spec_of_text(text@) == Some(spec@),
                None => spec_of_text(text@).is_none(),
            },
    {
        let word = "latest".to_owned();
        if *text == word {
            return Some(VersionSpec::Latest);
        }
        let b = text.as_str().as_bytes();
        if b.len() > 0 && (b[0] == GREATER || b[0] == LESS || b[0] == EQUALS || b[0] == TILDE
            || b[0] == CARET) {
            match parse_comparators(b) {
                Some(comparators) => Some(VersionSpec::Range(VersionReq { comparators })),
                None => None,
            }
        } else {
            Some(VersionSpec::Exact(text.clone()))
        }
    }
}

/// A tag without its leading `v`.
pub open spec fn normalized(b: Seq<u8>) -> Seq<u8> {
    b.skip(prefix_len(b))
}

/// Whether a release tag is the one that an exact request names.
pub open spec fn tag_matches(tag: Seq<u8>, wanted: Seq<u8>) -> bool {
    normalized(tag) == normalized(wanted)
}

/// The version of a release, where its tag states one.
pub open spec fn release_version(r: Release) -> Option<VersionView> {
    parse_tag(text_bytes(&r.tag_name))
}

/// Whether a release's tag states a version that satisfies the range.
pub open spec fn candidate(r: Release, req: VersionReq) -> bool {
    match release_version(r) {
        Some(v) => req.matches(v),
        None => false,
    }
}

/// `i` is the first release whose tag matches the exact request.
pub open spec fn exact_pick(releases: Seq<Release>, wanted: Seq<u8>, i: int) -> bool {
    &&& 0 <= i < releases.len()
    &&& tag_matches(text_bytes(&releases[i].tag_name), wanted)
    &&& forall|j: int|
        0 <= j < i ==> !tag_matches(text_bytes(&(#[trigger] releases[j]).tag_name), wanted)
}

/// No release carries the requested tag.
pub open spec fn exact_none(releases: Seq<Release>, wanted: Seq<u8>) -> bool {
    forall|j: int|
        0 <= j < releases.len() ==> !tag_matches(
            text_bytes(&(#[trigger] releases[j]).tag_name),
            wanted,
        )
}

/// Every release is a prerelease.
pub open spec fn all_prerelease(releases: Seq<Release>) -> bool {
    forall|j: int| 0 <= j < releases.len() ==> (#[trigger] releases[j]).prerelease
}

/// `i` is the newest release that is not a prerelease; or, where there
/// is none and the caller opted into prereleases, the newest release.
pub open spec fn latest_pick(releases: Seq<Release>, allow_prerelease: bool, i: int) -> bool {
    &&& 0 <= i < releases.len()
    &&& if releases[i].prerelease {
        allow_prerelease && i == 0 && all_prerelease(releases)
    } else {
        forall|j: int| 0 <= j < i ==> (#[trigger] releases[j]).prerelease
    }
}

/// "latest" has no answer: every release is a prerelease, and the caller
/// did not opt into them or there is no release at all.
pub open spec fn latest_none(releases: Seq<Release>, allow_prerelease: bool) -> bool {
    all_prerelease(releases) && (!allow_prerelease || releases.len() == 0)
}

/// `i` is a candidate of the highest version, the first such in the list.
pub open spec fn range_pick(releases: Seq<Release>, req: VersionReq, i: int) -> bool {
    &&& 0 <= i < releases.len()
    &&& candidate(releases[i], req)
    &&& forall|j: int|
        0 <= j < releases.len() && candidate(#[trigger] releases[j], req) ==> {
            let vj = release_version(releases[j]).unwrap();
            let vi = release_version(releases[i]).unwrap();
            vj.precedes(vi) || (vj == vi && i <= j)
        }
}

/// No release is a candidate for the range.
pub open spec fn range_none(releases: Seq<Release>, req: VersionReq) -> bool {
    forall|j: int| 0 <= j < releases.len() ==> !candidate(#[trigger] releases[j], req)
}

/// The release at `i` is the one that the specifier selects.
pub open spec fn picks(
    spec: VersionSpec,
    releases: Seq<Release>,
    allow_prerelease: bool,
    i: int,
) -> bool {
    match spec {
        VersionSpec::Exact(tag) => exact_pick(releases, text_bytes(&tag), i),
        VersionSpec::Range(req) => range_pick(releases, req, i),
        VersionSpec::Latest => latest_pick(releases, allow_prerelease, i),
    }
}

/// The specifier selects no release.
pub open spec fn unsatisfiable(
    spec: VersionSpec,
    releases: Seq<Release>,
    allow_prerelease: bool,
) -> bool {
    match spec {
        VersionSpec::Exact(tag) => exact_none(releases, text_bytes(&tag)),
        VersionSpec::Range(req) => range_none(releases, req),
        VersionSpec::Latest => latest_none(releases, allow_prerelease),
    }
}

/// Compares two tags, a leading `v` of either aside.
pub fn tags_equal(tag: &[u8], wanted: &[u8]) -> (r: bool)
    ensures
        r == tag_matches(tag@, wanted@),
{
    let x: usize = if tag.len() > 0 && tag[0] == LETTER_V {
        1
    } else {
        0
    };
    let y: usize = if wanted.len() > 0 && wanted[0] == LETTER_V {
        1
    } else {
        0
    };
    if tag.len() - x != wanted.len() - y {
        assert(normalized(tag@).len() != normalized(wanted@).len());
        return false;
    }
    let n: usize = tag.len() - x;
    let mut k: usize = 0;
    while k < n
        invariant
            k <= n,
            n == tag@.len() - x,
            n == wanted@.len() - y,
            x == prefix_len(tag@),
            y == prefix_len(wanted@),
            forall|m: int|
                0 <= m < k ==> (#[trigger] normalized(tag@)[m]) == normalized(wanted@)[m],
        decreases n - k,
    {
        if tag[x + k] != wanted[y + k] {
            assert(normalized(tag@)[k as int] != normalized(wanted@)[k as int]);
            return false;
        }
        k = k + 1;
    }
    assert(normalized(tag@) =~= normalized(wanted@));
    true
}

/// The first release that carries the requested tag.
pub fn resolve_exact(wanted: &String, releases: &Vec<Release>) -> (r: Option<usize>)
    ensures
        match r {
            Some(i) => exact_pick(releases@, text_bytes(wanted), i as int),
            None => exact_none(releases@, text_bytes(wanted)),
        },
{
    let w = wanted.as_str().as_bytes();
    let mut i: usize = 0;
    while i < releases.len()
        invariant
            i <= releases@.len(),
            w@ == text_bytes(wanted),
            forall|j: int|
                0 <= j < i ==> !tag_matches(text_bytes(&(#[trigger] releases@[j]).tag_name), w@),
        decreases releases@.len() - i,
    {
        if tags_equal(releases[i].tag_name.as_str().as_bytes(), w) {
            return Some(i);
        }
        i = i + 1;
    }
    None
}

/// The newest release that is not a prerelease, or the newest of all
/// where every release is one and `allow_prerelease` is set. Releases
/// are listed newest first.
pub fn resolve_latest(releases: &Vec<Release>, allow_prerelease: bool) -> (r: Option<usize>)
    ensures
        match r {
            Some(i) => latest_pick(releases@, allow_prerelease, i as int),
            None => latest_none(releases@, allow_prerelease),
        },
{
    let mut i: usize = 0;
    while i < releases.len()
        invariant
            i <= releases@.len(),
            forall|j: int| 0 <= j < i ==> (#[trigger] releases@[j]).prerelease,
        decreases releases@.len() - i,
    {
        if !releases[i].prerelease {
            return Some(i);
        }
        i = i + 1;
    }
    if allow_prerelease && releases.len() > 0 {
        Some(0)
    } else {
        None
    }
}

/// The release of the highest version that satisfies the range; among
/// releases of that same version, the first listed.
pub fn resolve_range(req: &VersionReq, releases: &Vec<Release>) -> (r: Option<usize>)
    ensures
        match r {
            Some(i) => range_pick(releases@, *req, i as int),
            None => range_none(releases@, *req),
        },
{
    let mut best: Option<(usize, Version)> = None;
    let mut i: usize = 0;
    while i < releases.len()
        invariant
            i <= releases@.len(),
            match best {
                Some((bi, bv)) => {
                    &&& bi < i
                    &&& candidate(releases@[bi as int], *req)
                    &&& release_version(releases@[bi as int]) == Some(bv@)
                    &&& forall|j: int|
                        0 <= j < i && candidate(#[trigger] releases@[j], *req) ==> {
                            let vj = release_version(releases@[j]).unwrap();
                            vj.precedes(bv@) || (vj == bv@ && bi <= j)
                        }
                },
                None => forall|j: int| 0 <= j < i ==> !candidate(#[trigger] releases@[j], *req),
            },
        decreases releases@.len() - i,
    {
        match parse_version(&releases[i].tag_name) {
            None => {},
            Some(v) => {
                if req.is_match(&v) {
                    let better: bool = match &best {
                        None => true,
                        Some((_, bv)) => bv.lt(&v),
                    };
                    let ghost held = best;
                    proof {
                        match held {
                            Some((bi, bv)) => {
                                if better {
                                    assert forall|j: int|
                                        0 <= j < i && candidate(
                                            #[trigger] releases@[j],
                                            *req,
                                        ) implies release_version(
                                        releases@[j],
                                    ).unwrap().precedes(v@) by {
                                        let vj = release_version(releases@[j]).unwrap();
                                        if vj != bv@ {
                                            lemma_precedes_trans(vj, bv@, v@);
                                        }
                                    }
                                } else {
                                    if !v@.precedes(bv@) {
                                        lemma_precedes_total(v@, bv@);
                                    }
                                }
                            },
                            None => {},
                        }
                    }
                    if better {
                        best = Some((i, v));
                    }
                }
            },
        }
        i = i + 1;
    }
    match best {
        Some((bi, _)) => Some(bi),
        None => None,
    }
}

/// The index of the release that the specifier selects.
pub fn resolve_index(spec: &VersionSpec, releases: &Vec<Release>, allow_prerelease: bool) -> (r:
    Option<usize>)
    ensures
        match r {
            Some(i) => picks(*spec, releases@, allow_prerelease, i as int),
            None => unsatisfiable(*spec, releases@, allow_prerelease),
        },
{
    match spec {
        VersionSpec::Exact(tag) => resolve_exact(tag, releases),
        VersionSpec::Range(req) => resolve_range(req, releases),
        VersionSpec::Latest => resolve_latest(releases, allow_prerelease),
    }
}

/// Selects exactly one release for a specifier, or reports that none
/// satisfies it. `allow_prerelease` is the caller's consent to resolve
/// "latest" to a prerelease where nothing else is published.
pub fn resolve<'a>(spec: &VersionSpec, releases: &'a Vec<Release>, allow_prerelease: bool) -> (r:
    Result<&'a Release, ToolError>)
    ensures
        match r {
            Ok(rel) => exists|i: int|
                picks(*spec, releases@, allow_prerelease, i) && 0 <= i < releases@.len() && *rel
                    == releases@[i],
            Err(e) => e == ToolError::SpecNotSatisfiable && unsatisfiable(
                *spec,
                releases@,
                allow_prerelease,
            ),
        },
{
    match resolve_index(spec, releases, allow_prerelease) {
        Some(i) => {
            assert(picks(*spec, releases@, allow_prerelease, i as int) && 0 <= i
                < releases@.len());
            Ok(&releases[i])
        },
        None => Err(ToolError::SpecNotSatisfiable),
    }
}

/// "latest" never selects a prerelease while a release that is none
/// exists, and then it always selects one.
pub proof fn law_latest_avoids_prerelease(
    releases: Seq<Release>,
    allow_prerelease: bool,
    k: int,
)
    requires
        0 <= k < releases.len(),
        !releases[k].prerelease,
    ensures
        !latest_none(releases, allow_prerelease),
        forall|i: int| latest_pick(releases, allow_prerelease, i) ==> !releases[i].prerelease,
{
}

/// What a range selects satisfies the range, and no release that
/// satisfies it has a higher version.
pub proof fn law_range_pick_is_maximum(releases: Seq<Release>, req: VersionReq, i: int, j: int)
    requires
        range_pick(releases, req, i),
        0 <= j < releases.len(),
        candidate(releases[j], req),
    ensures
        req.matches(release_version(releases[i]).unwrap()),
        !release_version(releases[i]).unwrap().precedes(release_version(releases[j]).unwrap()),
{
    let vi = release_version(releases[i]).unwrap();
    let vj = release_version(releases[j]).unwrap();
    lemma_precedes_irreflexive(vi);
    if vj.precedes(vi) && vi.precedes(vj) {
        lemma_precedes_trans(vi, vj, vi);
    }
}

/// At most one release is selected: the specifier decides the index.
pub proof fn law_pick_is_unique(
    spec: VersionSpec,
    releases: Seq<Release>,
    allow_prerelease: bool,
    i: int,
    j: int,
)
    requires
        picks(spec, releases, allow_prerelease, i),
        picks(spec, releases, allow_prerelease, j),
    ensures
        i == j,
{
    if let VersionSpec::Range(req) = spec {
        let vi = release_version(releases[i]).unwrap();
        let vj = release_version(releases[j]).unwrap();
        lemma_precedes_irreflexive(vi);
        if vj.precedes(vi) && vi.precedes(vj) {
            lemma_precedes_trans(vi, vj, vi);
        }
    }
}

} // verus!
