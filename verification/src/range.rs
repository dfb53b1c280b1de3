//! Version range constraints.

use vstd::prelude::*;
use vstd::slice::slice_subrange;
use crate::version::{parse_bytes, parse_tag, Version, VersionView};

verus! {

/// How a comparator holds a version against its own.
#[derive(Clone, Copy, Debug, PartialEq, Eq, Structural)]
pub enum Op {
    /// `=`: this very version.
    Exact,
    /// `>`
    Greater,
    /// `>=`
    GreaterEq,
    /// `<`
    Less,
    /// `<=`
    LessEq,
    /// `~`: not below, with the same major and minor number.
    Tilde,
    /// `^`: not below, with the same leftmost number that is not zero.
    Caret,
}

/// One comparison of a range constraint.
#[derive(Clone, Debug, PartialEq, Eq)]
pub struct Comparator {
    pub op: Op,
    pub version: Version,
}

/// What a `Comparator` stands for.
pub struct ComparatorView {
    pub op: Op,
    pub version: VersionView,
}

impl View for Comparator {
    type V = ComparatorView;

    open spec fn view(&self) -> ComparatorView {
        ComparatorView { op: self.op, version: self.version@ }
    }
}

/// The views of a list of comparators.
pub open spec fn comparator_views(cs: Seq<Comparator>) -> Seq<ComparatorView> {
    cs.map_values(|c: Comparator| c@)
}

impl ComparatorView {
    /// Whether the comparison holds of `v`, by precedence.
    pub open spec fn admits(self, v: VersionView) -> bool {
        let w = self.version;
        match self.op {
            Op::Exact => v == w,
            Op::Greater => w.precedes(v),
            Op::GreaterEq => !v.precedes(w),
            Op::Less => v.precedes(w),
            Op::LessEq => !w.precedes(v),
            Op::Tilde => !v.precedes(w) && v.major == w.major && v.minor == w.minor,
            Op::Caret => !v.precedes(w) && (if w.major > 0 {
                v.major == w.major
            } else if w.minor > 0 {
                v.major == 0 && v.minor == w.minor
            } else {
                v.same_core(w)
            }),
        }
    }
}

impl Comparator {
    pub fn test(&self, v: &Version) -> (r: bool)
        ensures
            r == self@.admits(v@),
    {
        let w = &self.version;
        match self.op {
            Op::Exact => v.same(w),
            Op::Greater => w.lt(v),
            Op::GreaterEq => !v.lt(w),
            Op::Less => v.lt(w),
            Op::LessEq => !w.lt(v),
            Op::Tilde => !v.lt(w) && v.major == w.major && v.minor == w.minor,
            Op::Caret => !v.lt(w) && (if w.major > 0 {
                v.major == w.major
            } else if w.minor > 0 {
                v.major == 0 && v.minor == w.minor
            } else {
                v.core_eq(w)
            }),
        }
    }
}

/// The byte `>`.
pub const GREATER: u8 = 62;

/// The byte `<`.
pub const LESS: u8 = 60;

/// The byte `=`.
pub const EQUALS: u8 = 61;

/// The byte `~`.
pub const TILDE: u8 = 126;

/// The byte `^`.
pub const CARET: u8 = 94;

/// The operator that a text starts with, and its length.
pub open spec fn op_at(b: Seq<u8>) -> Option<(Op, int)> {
    if b.len() >= 2 && b[0] == GREATER && b[1] == EQUALS {
        Some((Op::GreaterEq, 2))
    } else if b.len() >= 2 && b[0] == LESS && b[1] == EQUALS {
        Some((Op::LessEq, 2))
    } else if b.len() >= 1 && b[0] == GREATER {
        Some((Op::Greater, 1))
    } else if b.len() >= 1 && b[0] == LESS {
        Some((Op::Less, 1))
    } else if b.len() >= 1 && b[0] == EQUALS {
        Some((Op::Exact, 1))
    } else if b.len() >= 1 && b[0] == TILDE {
        Some((Op::Tilde, 1))
    } else if b.len() >= 1 && b[0] == CARET {
        Some((Op::Caret, 1))
    } else {
        None
    }
}

/// The comparator that a text writes: an operator, then a version.
pub open spec fn comparator_of(b: Seq<u8>) -> Option<ComparatorView> {
    match op_at(b) {
        Some((op, n)) => match parse_tag(b.skip(n)) {
            Some(version) => Some(ComparatorView { op, version }),
            None => None,
        },
        None => None,
    }
}

fn scan_op(b: &[u8]) -> (r: Option<(Op, usize)>)
    ensures
        match r {
            Some((op, n)) => op_at(b@) == Some((op, n as int)) && n <= b@.len(),
            None => op_at(b@).is_none(),
        },
{
    let n: usize = b.len();
    if n >= 2 && b[0] == GREATER && b[1] == EQUALS {
        Some((Op::GreaterEq, 2))
    } else if n >= 2 && b[0] == LESS && b[1] == EQUALS {
        Some((Op::LessEq, 2))
    } else if n >= 1 && b[0] == GREATER {
        Some((Op::Greater, 1))
    } else if n >= 1 && b[0] == LESS {
        Some((Op::Less, 1))
    } else if n >= 1 && b[0] == EQUALS {
        Some((Op::Exact, 1))
    } else if n >= 1 && b[0] == TILDE {
        Some((Op::Tilde, 1))
    } else if n >= 1 && b[0] == CARET {
        Some((Op::Caret, 1))
    } else {
        None
    }
}

/// Reads a comparator: one of `>=`, `<=`, `>`, `<`, `=`, `~`, `^`, then
/// a version.
pub fn parse_comparator(b: &[u8]) -> (r: Option<Comparator>)
    ensures
        match r {
            Some(c) => comparator_of(b@) == Some(c@),
            None => comparator_of(b@).is_none(),
        },
{
    match scan_op(b) {
        None => None,
        Some((op, n)) => {
            let rest = slice_subrange(b, n, b.len());
            assert(rest@ =~= b@.skip(n as int));
            match parse_bytes(rest) {
                Some(version) => Some(Comparator { op, version }),
                None => None,
            }
        },
    }
}

/// The byte `,`, which separates the comparators of a range.
pub const COMMA: u8 = 44;

/// The byte of a blank, which may follow a comma.
pub const SPACE: u8 = 32;

/// Whether a byte begins an operator.
pub open spec fn is_op_byte(c: u8) -> bool {
    c == GREATER || c == LESS || c == EQUALS || c == TILDE || c == CARET
}

/// The end of the run of blanks that starts at `i`.
pub open spec fn blanks_end(b: Seq<u8>, i: int) -> int
    decreases b.len() - i,
{
    if 0 <= i < b.len() && b[i] == SPACE {
        blanks_end(b, i + 1)
    } else {
        i
    }
}

/// The place of the first comma at or behind `i`, or the end of the text.
pub open spec fn piece_end(b: Seq<u8>, i: int) -> int
    decreases b.len() - i,
{
    if 0 <= i < b.len() && b[i] != COMMA {
        piece_end(b, i + 1)
    } else {
        i
    }
}

/// The comparators that a text lists from `i` on: each may have blanks
/// before it and runs up to the next comma or to the end.
pub open spec fn comparators_at(b: Seq<u8>, i: int) -> Option<Seq<ComparatorView>>
    decreases b.len() - i,
{
    let s = blanks_end(b, i);
    let e = piece_end(b, s);
    if !(0 <= i <= s <= e <= b.len()) {
        None
    } else {
        match comparator_of(b.subrange(s, e)) {
            None => None,
            Some(c) => if e < b.len() {
                match comparators_at(b, e + 1) {
                    None => None,
                    Some(rest) => Some(seq![c] + rest),
                }
            } else {
                Some(seq![c])
            },
        }
    }
}

/// The comparators read so far joined to those that follow.
pub open spec fn after_read(
    read: Seq<ComparatorView>,
    rest: Option<Seq<ComparatorView>>,
) -> Option<Seq<ComparatorView>> {
    match rest {
        Some(more) => Some(read + more),
        None => None,
    }
}

fn scan_blanks(b: &[u8], i: usize) -> (r: usize)
    requires
        i <= b@.len(),
    ensures
        r == blanks_end(b@, i as int),
        i <= r <= b@.len(),
{
    let mut j: usize = i;
    while j < b.len() && b[j] == SPACE
        invariant
            i <= j <= b@.len(),
            blanks_end(b@, i as int) == blanks_end(b@, j as int),
        decreases b@.len() - j,
    {
        j = j + 1;
    }
    j
}

fn scan_piece(b: &[u8], i: usize) -> (r: usize)
    requires
        i <= b@.len(),
    ensures
        r == piece_end(b@, i as int),
        i <= r <= b@.len(),
{
    let mut j: usize = i;
    while j < b.len() && b[j] != COMMA
        invariant
            i <= j <= b@.len(),
            piece_end(b@, i as int) == piece_end(b@, j as int),
        decreases b@.len() - j,
    {
        j = j + 1;
    }
    j
}

/// Reads the comparators of a range: one or more, separated by commas,
/// each a full comparator.
pub fn parse_comparators(b: &[u8]) -> (r: Option<Vec<Comparator>>)
    ensures
        match r {
            Some(cs) => comparators_at(b@, 0) == Some(comparator_views(cs@)),
            None => comparators_at(b@, 0).is_none(),
        },
{
    let mut cs: Vec<Comparator> = Vec::new();
    let mut cur: usize = 0;
    assert(after_read(comparator_views(cs@), comparators_at(b@, 0)) =~= comparators_at(b@, 0)) by {
        match comparators_at(b@, 0) {
            Some(more) => {
                assert(comparator_views(cs@) + more =~= more);
            },
            None => {},
        }
    }
    loop
        invariant
            cur <= b@.len(),
            comparators_at(b@, 0) == after_read(
                comparator_views(cs@),
                comparators_at(b@, cur as int),
            ),
        decreases b@.len() - cur,
    {
        let ghost before = comparator_views(cs@);
        let s: usize = scan_blanks(b, cur);
        let e: usize = scan_piece(b, s);
        match parse_comparator(slice_subrange(b, s, e)) {
            None => {
                return None;
            },
            Some(c) => {
                let ghost cv = c@;
                cs.push(c);
                assert(comparator_views(cs@) =~= before.push(cv));
                if e < b.len() {
                    proof {
                        match comparators_at(b@, e + 1) {
                            Some(more) => {
                                assert(before + (seq![cv] + more) =~= before.push(cv) + more);
                            },
                            None => {},
                        }
                    }
                    cur = e + 1;
                } else {
                    assert(before + seq![cv] =~= before.push(cv));
                    return Some(cs);
                }
            },
        }
    }
}

/// A range constraint: every comparator must hold. One without
/// comparators admits every release version.
#[derive(Clone, Debug)]
pub struct VersionReq {
    pub comparators: Vec<Comparator>,
}

impl VersionReq {
    /// What the constraint stands for: its comparators.
    pub open spec fn list(self) -> Seq<ComparatorView> {
        comparator_views(self.comparators@)
    }

    /// Whether some comparator names a prerelease of the three numbers of `v`.
    pub open spec fn targets_prerelease_of(self, v: VersionView) -> bool {
        exists|k: int|
            0 <= k < self.list().len() && (#[trigger] self.list()[k]).version.pre.len() > 0
                && self.list()[k].version.same_core(v)
    }

    /// Whether every comparator holds of `v`.
    pub open spec fn all_admit(self, v: VersionView) -> bool {
        forall|k: int| 0 <= k < self.list().len() ==> (#[trigger] self.list()[k]).admits(v)
    }

    /// Whether `v` satisfies the constraint. A prerelease satisfies it
    /// only where the constraint targets a prerelease of the same three
    /// numbers.
    pub open spec fn matches(self, v: VersionView) -> bool {
        self.all_admit(v) && (v.pre.len() > 0 ==> self.targets_prerelease_of(v))
    }

    pub fn is_match(&self, v: &Version) -> (r: bool)
        ensures
            r == self.matches(v@),
    {
        let ghost list = self.list();
        let mut all: bool = true;
        let mut targeted: bool = false;
        let mut k: usize = 0;
        while k < self.comparators.len()
            invariant
                k <= self.comparators@.len(),
                list == self.list(),
                all == (forall|m: int| 0 <= m < k ==> (#[trigger] list[m]).admits(v@)),
                targeted == (exists|m: int|
                    0 <= m < k && (#[trigger] list[m]).version.pre.len() > 0
                        && list[m].version.same_core(v@)),
            decreases self.comparators@.len() - k,
        {
            let c = &self.comparators[k];
            assert(list[k as int] == c@);
            if !c.test(v) {
                all = false;
            }
            if c.version.is_prerelease() && c.version.core_eq(v) {
                targeted = true;
            }
            k = k + 1;
        }
        all && (!v.is_prerelease() || targeted)
    }
}

} // verus!
