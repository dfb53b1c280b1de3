//! Semantic versions as release tags carry them: three numbers and the
//! identifiers of a prerelease suffix, with their precedence.

use vstd::prelude::*;
use vstd::slice::{slice_subrange, slice_to_vec};
use crate::models::text_bytes;

verus! {

/// One identifier of a prerelease suffix: a number, or a text of
/// letters, digits and hyphens.
#[derive(Clone, Debug, PartialEq, Eq)]
pub enum Ident {
    Num(u64),
    Text(Vec<u8>),
}

/// What an `Ident` stands for.
pub enum IdentView {
    Num(u64),
    Text(Seq<u8>),
}

impl View for Ident {
    type V = IdentView;

    open spec fn view(&self) -> IdentView {
        match *self {
            Ident::Num(n) => IdentView::Num(n),
            Ident::Text(t) => IdentView::Text(t@),
        }
    }
}

/// The views of a list of identifiers.
pub open spec fn ident_views(ids: Seq<Ident>) -> Seq<IdentView> {
    ids.map_values(|x: Ident| x@)
}

/// A semantic version: three numbers and the identifiers of the
/// prerelease suffix, of which a release has none. Build metadata is
/// no part of a version.
#[derive(Clone, Debug, PartialEq, Eq)]
pub struct Version {
    pub major: u64,
    pub minor: u64,
    pub patch: u64,
    pub pre: Vec<Ident>,
}

/// What a `Version` stands for.
pub struct VersionView {
    pub major: u64,
    pub minor: u64,
    pub patch: u64,
    pub pre: Seq<IdentView>,
}

impl View for Version {
    type V = VersionView;

    open spec fn view(&self) -> VersionView {
        VersionView {
            major: self.major,
            minor: self.minor,
            patch: self.patch,
            pre: ident_views(self.pre@),
        }
    }
}

/// ASCII order of two texts from place `k` on: the first byte that
/// differs decides, and a text is below each longer one that it begins.
pub open spec fn bytes_lt(a: Seq<u8>, b: Seq<u8>, k: int) -> bool
    decreases a.len() - k,
{
    if k < 0 || k >= b.len() {
        false
    } else if k >= a.len() {
        true
    } else if a[k] != b[k] {
        a[k] < b[k]
    } else {
        bytes_lt(a, b, k + 1)
    }
}

/// Precedence of two identifiers: numbers by value, texts in ASCII
/// order, and a number below every text.
pub open spec fn ident_lt(x: IdentView, y: IdentView) -> bool {
    match (x, y) {
        (IdentView::Num(a), IdentView::Num(b)) => a < b,
        (IdentView::Num(_), IdentView::Text(_)) => true,
        (IdentView::Text(_), IdentView::Num(_)) => false,
        (IdentView::Text(a), IdentView::Text(b)) => bytes_lt(a, b, 0),
    }
}

/// Precedence of two lists of identifiers from place `k` on: the first
/// identifier that differs decides, and a list is below each longer one
/// that it begins.
pub open spec fn idents_lt(a: Seq<IdentView>, b: Seq<IdentView>, k: int) -> bool
    decreases a.len() - k,
{
    if k < 0 || k >= b.len() {
        false
    } else if k >= a.len() {
        true
    } else if a[k] != b[k] {
        ident_lt(a[k], b[k])
    } else {
        idents_lt(a, b, k + 1)
    }
}

impl VersionView {
    /// Strictly lower precedence: by the three numbers; of two versions
    /// with the same numbers a prerelease is below the release, and two
    /// prereleases go by their identifiers.
    pub open spec fn precedes(self, other: VersionView) -> bool {
        self.major < other.major || (self.major == other.major && (self.minor < other.minor || (
        self.minor == other.minor && (self.patch < other.patch || (self.patch == other.patch
            && self.pre.len() > 0 && (other.pre.len() == 0 || idents_lt(
            self.pre,
            other.pre,
            0,
        )))))))
    }

    /// The same three numbers, whatever the suffix.
    pub open spec fn same_core(self, other: VersionView) -> bool {
        self.major == other.major && self.minor == other.minor && self.patch == other.patch
    }
}

pub proof fn lemma_bytes_irreflexive(a: Seq<u8>, k: int)
    ensures
        !bytes_lt(a, a, k),
    decreases a.len() - k,
{
    if 0 <= k < a.len() {
        lemma_bytes_irreflexive(a, k + 1);
    }
}

pub proof fn lemma_bytes_trans(a: Seq<u8>, b: Seq<u8>, c: Seq<u8>, k: int)
    requires
        bytes_lt(a, b, k),
        bytes_lt(b, c, k),
    ensures
        bytes_lt(a, c, k),
    decreases a.len() - k,
{
    if 0 <= k < a.len() && k < b.len() && k < c.len() && a[k] == b[k] && b[k] == c[k] {
        lemma_bytes_trans(a, b, c, k + 1);
    }
}

pub proof fn lemma_bytes_total(a: Seq<u8>, b: Seq<u8>, k: int)
    requires
        0 <= k <= a.len(),
        k <= b.len(),
        !bytes_lt(a, b, k),
        !bytes_lt(b, a, k),
    ensures
        a.len() == b.len(),
        forall|m: int| k <= m < a.len() ==> a[m] == b[m],
    decreases a.len() - k,
{
    if k < a.len() && k < b.len() {
        lemma_bytes_total(a, b, k + 1);
    }
}

pub proof fn lemma_ident_irreflexive(x: IdentView)
    ensures
        !ident_lt(x, x),
{
    if let IdentView::Text(a) = x {
        lemma_bytes_irreflexive(a, 0);
    }
}

pub proof fn lemma_ident_trans(x: IdentView, y: IdentView, z: IdentView)
    requires
        ident_lt(x, y),
        ident_lt(y, z),
    ensures
        ident_lt(x, z),
{
    match (x, y, z) {
        (IdentView::Text(a), IdentView::Text(b), IdentView::Text(c)) => {
            lemma_bytes_trans(a, b, c, 0);
        },
        _ => {},
    }
}

pub proof fn lemma_ident_total(x: IdentView, y: IdentView)
    requires
        !ident_lt(x, y),
        !ident_lt(y, x),
    ensures
        x == y,
{
    match (x, y) {
        (IdentView::Text(a), IdentView::Text(b)) => {
            lemma_bytes_total(a, b, 0);
            assert(a =~= b);
        },
        _ => {},
    }
}

pub proof fn lemma_idents_irreflexive(a: Seq<IdentView>, k: int)
    ensures
        !idents_lt(a, a, k),
    decreases a.len() - k,
{
    if 0 <= k < a.len() {
        lemma_idents_irreflexive(a, k + 1);
    }
}

pub proof fn lemma_idents_trans(a: Seq<IdentView>, b: Seq<IdentView>, c: Seq<IdentView>, k: int)
    requires
        idents_lt(a, b, k),
        idents_lt(b, c, k),
    ensures
        idents_lt(a, c, k),
    decreases a.len() - k,
{
    if 0 <= k < a.len() && k < b.len() && k < c.len() {
        if a[k] == b[k] && b[k] == c[k] {
            lemma_idents_trans(a, b, c, k + 1);
        } else if a[k] != b[k] && b[k] != c[k] {
            lemma_ident_trans(a[k], b[k], c[k]);
            lemma_ident_irreflexive(a[k]);
        }
    }
}

pub proof fn lemma_idents_total(a: Seq<IdentView>, b: Seq<IdentView>, k: int)
    requires
        0 <= k <= a.len(),
        k <= b.len(),
        !idents_lt(a, b, k),
        !idents_lt(b, a, k),
    ensures
        a.len() == b.len(),
        forall|m: int| k <= m < a.len() ==> a[m] == b[m],
    decreases a.len() - k,
{
    if k < a.len() && k < b.len() {
        if a[k] != b[k] {
            lemma_ident_total(a[k], b[k]);
        }
        lemma_idents_total(a, b, k + 1);
    }
}

/// No version precedes itself.
pub proof fn lemma_precedes_irreflexive(v: VersionView)
    ensures
        !v.precedes(v),
{
    lemma_idents_irreflexive(v.pre, 0);
}

/// Precedence is transitive.
pub proof fn lemma_precedes_trans(a: VersionView, b: VersionView, c: VersionView)
    requires
        a.precedes(b),
        b.precedes(c),
    ensures
        a.precedes(c),
{
    if a.same_core(b) && b.same_core(c) && c.pre.len() > 0 {
        lemma_idents_trans(a.pre, b.pre, c.pre, 0);
    }
}

/// Of two versions one precedes the other, or they are the same.
pub proof fn lemma_precedes_total(a: VersionView, b: VersionView)
    requires
        !a.precedes(b),
        !b.precedes(a),
    ensures
        a == b,
{
    if a.pre.len() > 0 && b.pre.len() > 0 {
        lemma_idents_total(a.pre, b.pre, 0);
    }
    assert(a.pre =~= b.pre);
}

fn text_lt(a: &Vec<u8>, b: &Vec<u8>) -> (r: bool)
    ensures
        r == bytes_lt(a@, b@, 0),
{
    let mut k: usize = 0;
    while k < a.len() && k < b.len()
        invariant
            k <= a@.len(),
            k <= b@.len(),
            bytes_lt(a@, b@, 0) == bytes_lt(a@, b@, k as int),
        decreases a@.len() - k,
    {
        if a[k] != b[k] {
            return a[k] < b[k];
        }
        k = k + 1;
    }
    k < b.len()
}

impl Ident {
    /// Strictly lower precedence.
    pub fn lt(&self, other: &Ident) -> (r: bool)
        ensures
            r == ident_lt(self@, other@),
    {
        match (self, other) {
            (Ident::Num(a), Ident::Num(b)) => *a < *b,
            (Ident::Num(_), Ident::Text(_)) => true,
            (Ident::Text(_), Ident::Num(_)) => false,
            (Ident::Text(a), Ident::Text(b)) => text_lt(a, b),
        }
    }
}

fn list_lt(a: &Vec<Ident>, b: &Vec<Ident>) -> (r: bool)
    ensures
        r == idents_lt(ident_views(a@), ident_views(b@), 0),
{
    let ghost av = ident_views(a@);
    let ghost bv = ident_views(b@);
    let mut k: usize = 0;
    while k < a.len() && k < b.len()
        invariant
            k <= a@.len(),
            k <= b@.len(),
            av == ident_views(a@),
            bv == ident_views(b@),
            idents_lt(av, bv, 0) == idents_lt(av, bv, k as int),
        decreases a@.len() - k,
    {
        assert(av[k as int] == a@[k as int]@ && bv[k as int] == b@[k as int]@);
        proof {
            lemma_ident_irreflexive(av[k as int]);
        }
        if a[k].lt(&b[k]) {
            return true;
        }
        if b[k].lt(&a[k]) {
            return false;
        }
        proof {
            lemma_ident_total(av[k as int], bv[k as int]);
        }
        k = k + 1;
    }
    k < b.len()
}

impl Version {
    /// Strictly lower precedence.
    pub fn lt(&self, other: &Version) -> (r: bool)
        ensures
            r == self@.precedes(other@),
    {
        if self.major != other.major {
            self.major < other.major
        } else if self.minor != other.minor {
            self.minor < other.minor
        } else if self.patch != other.patch {
            self.patch < other.patch
        } else if self.pre.len() == 0 {
            false
        } else if other.pre.len() == 0 {
            true
        } else {
            list_lt(&self.pre, &other.pre)
        }
    }

    /// Whether both are the same version.
    pub fn same(&self, other: &Version) -> (r: bool)
        ensures
            r == (self@ == other@),
    {
        proof {
            lemma_precedes_irreflexive(self@);
            if !self@.precedes(other@) && !other@.precedes(self@) {
                lemma_precedes_total(self@, other@);
            }
        }
        !self.lt(other) && !other.lt(self)
    }

    /// Whether both have the same three numbers.
    pub fn core_eq(&self, other: &Version) -> (r: bool)
        ensures
            r == self@.same_core(other@),
    {
        self.major == other.major && self.minor == other.minor && self.patch == other.patch
    }

    /// Whether the version is a prerelease.
    pub fn is_prerelease(&self) -> (r: bool)
        ensures
            r == (self@.pre.len() > 0),
    {
        self.pre.len() > 0
    }
}

/// The byte `v`, which may stand before a version in a tag.
pub const LETTER_V: u8 = 118;

/// The byte `.`.
pub const DOT: u8 = 46;

/// The byte `-`.
pub const HYPHEN: u8 = 45;

/// The byte `+`.
pub const PLUS: u8 = 43;

pub open spec fn is_digit(c: u8) -> bool {
    48 <= c <= 57
}

/// The end of the run of decimal digits that starts at `i`.
pub open spec fn digits_end(b: Seq<u8>, i: int) -> int
    decreases b.len() - i,
{
    if 0 <= i < b.len() && is_digit(b[i]) {
        digits_end(b, i + 1)
    } else {
        i
    }
}

/// The number that the digits `b[lo..hi]` write.
pub open spec fn digits_value(b: Seq<u8>, lo: int, hi: int) -> nat
    decreases hi - lo,
{
    if hi <= lo {
        0
    } else {
        digits_value(b, lo, hi - 1) * 10 + (b[hi - 1] - 48) as nat
    }
}

/// A number at `i`: a non-empty run of digits without a needless
/// leading zero, whose value fits in 64 bits, together with the place
/// where the run ends.
pub open spec fn number_at(b: Seq<u8>, i: int) -> Option<(u64, int)> {
    let j = digits_end(b, i);
    if j > i && (j == i + 1 || b[i] != 48) && digits_value(b, i, j) <= u64::MAX {
        Some((digits_value(b, i, j) as u64, j))
    } else {
        None
    }
}

/// A dot at `i`, followed by a number.
pub open spec fn dot_number_at(b: Seq<u8>, i: int) -> Option<(u64, int)> {
    if 0 <= i < b.len() && b[i] == DOT {
        number_at(b, i + 1)
    } else {
        None
    }
}

/// Where the version starts in a tag: behind one leading `v`, if there is one.
pub open spec fn prefix_len(b: Seq<u8>) -> int {
    if b.len() > 0 && b[0] == LETTER_V {
        1
    } else {
        0
    }
}

/// A byte of an identifier: a digit, an ASCII letter or a hyphen.
pub open spec fn is_ident_byte(c: u8) -> bool {
    is_digit(c) || 65 <= c <= 90 || 97 <= c <= 122 || c == HYPHEN
}

/// The end of the run of identifier bytes that starts at `i`.
pub open spec fn ident_end(b: Seq<u8>, i: int) -> int
    decreases b.len() - i,
{
    if 0 <= i < b.len() && is_ident_byte(b[i]) {
        ident_end(b, i + 1)
    } else {
        i
    }
}

/// The identifier at `i`, and where it ends: a non-empty run of
/// identifier bytes. One of digits alone is a number, which has no
/// needless leading zero and fits in 64 bits; any other is a text.
pub open spec fn ident_at(b: Seq<u8>, i: int) -> Option<(IdentView, int)> {
    let j = ident_end(b, i);
    if j <= i {
        None
    } else if digits_end(b, i) == j {
        match number_at(b, i) {
            Some((n, _)) => Some((IdentView::Num(n), j)),
            None => None,
        }
    } else {
        Some((IdentView::Text(b.subrange(i, j)), j))
    }
}

/// The identifiers at `i`, separated by dots, and where they end.
pub open spec fn idents_at(b: Seq<u8>, i: int) -> Option<(Seq<IdentView>, int)>
    decreases b.len() - i,
{
    match ident_at(b, i) {
        None => None,
        Some((x, j)) => if i < j < b.len() && b[j] == DOT {
            match idents_at(b, j + 1) {
                None => None,
                Some((rest, k)) => Some((seq![x] + rest, k)),
            }
        } else {
            Some((seq![x], j))
        },
    }
}

/// A byte of build metadata: an identifier byte or a dot.
pub open spec fn is_suffix_byte(c: u8) -> bool {
    is_ident_byte(c) || c == DOT
}

/// The end of the run of build metadata bytes that starts at `i`.
pub open spec fn suffix_end(b: Seq<u8>, i: int) -> int
    decreases b.len() - i,
{
    if 0 <= i < b.len() && is_suffix_byte(b[i]) {
        suffix_end(b, i + 1)
    } else {
        i
    }
}

/// Build metadata at `i`: a non-empty run of its bytes up to the end.
pub open spec fn build_at(b: Seq<u8>, i: int) -> bool {
    i < b.len() && suffix_end(b, i) == b.len()
}

/// What may follow the three numbers: nothing; `-` and the identifiers
/// of a prerelease, which build metadata may follow; or `+` and build
/// metadata. The result holds the identifiers of the prerelease.
pub open spec fn suffix_at(b: Seq<u8>, i: int) -> Option<Seq<IdentView>> {
    if i == b.len() {
        Some(Seq::empty())
    } else if 0 <= i < b.len() && b[i] == HYPHEN {
        match idents_at(b, i + 1) {
            None => None,
            Some((ids, j)) => if j == b.len() || (0 <= j < b.len() && b[j] == PLUS && build_at(
                b,
                j + 1,
            )) {
                Some(ids)
            } else {
                None
            },
        }
    } else if 0 <= i < b.len() && b[i] == PLUS && build_at(b, i + 1) {
        Some(Seq::empty())
    } else {
        None
    }
}

/// The version that a tag states, if it states one.
pub open spec fn parse_tag(b: Seq<u8>) -> Option<VersionView> {
    match number_at(b, prefix_len(b)) {
        None => None,
        Some((major, i1)) => match dot_number_at(b, i1) {
            None => None,
            Some((minor, i2)) => match dot_number_at(b, i2) {
                None => None,
                Some((patch, i3)) => match suffix_at(b, i3) {
                    None => None,
                    Some(pre) => Some(VersionView { major, minor, patch, pre }),
                },
            },
        },
    }
}

proof fn lemma_digits_end_bounds(b: Seq<u8>, i: int)
    requires
        0 <= i <= b.len(),
    ensures
        i <= digits_end(b, i) <= b.len(),
    decreases b.len() - i,
{
    if i < b.len() && is_digit(b[i]) {
        lemma_digits_end_bounds(b, i + 1);
    }
}

proof fn lemma_digits_value_grows(b: Seq<u8>, lo: int, mid: int, hi: int)
    requires
        0 <= lo <= mid <= hi <= b.len(),
        forall|k: int| lo <= k < hi ==> is_digit(#[trigger] b[k]),
    ensures
        digits_value(b, lo, mid) <= digits_value(b, lo, hi),
    decreases hi - mid,
{
    if mid < hi {
        lemma_digits_value_grows(b, lo, mid, hi - 1);
    }
}

proof fn lemma_digits_run(b: Seq<u8>, i: int)
    requires
        0 <= i <= b.len(),
    ensures
        forall|k: int| i <= k < digits_end(b, i) ==> is_digit(#[trigger] b[k]),
    decreases b.len() - i,
{
    if i < b.len() && is_digit(b[i]) {
        lemma_digits_run(b, i + 1);
    }
}

/// Reads the number at `i`.
pub fn scan_number(b: &[u8], i: usize) -> (r: Option<(u64, usize)>)
    requires
        i <= b@.len(),
    ensures
        match r {
            Some((v, j)) => number_at(b@, i as int) == Some((v, j as int)) && i < j <= b@.len(),
            None => number_at(b@, i as int).is_none(),
        },
{
    let mut j: usize = i;
    let mut acc: u64 = 0;
    proof {
        lemma_digits_end_bounds(b@, i as int);
        lemma_digits_run(b@, i as int);
    }
    while j < b.len() && 48 <= b[j] && b[j] <= 57
        invariant
            i <= j <= b@.len(),
            digits_end(b@, i as int) == digits_end(b@, j as int),
            j <= digits_end(b@, i as int) <= b@.len(),
            forall|k: int| i <= k < digits_end(b@, i as int) ==> is_digit(#[trigger] b@[k]),
            acc == digits_value(b@, i as int, j as int),
        decreases b@.len() - j,
    {
        let d: u64 = (b[j] - 48) as u64;
        proof {
            lemma_digits_end_bounds(b@, j + 1);
        }
        if acc > (u64::MAX - d) / 10 {
            proof {
                lemma_digits_value_grows(b@, i as int, j + 1, digits_end(b@, i as int));
            }
            return None;
        }
        acc = acc * 10 + d;
        j = j + 1;
    }
    if j == i || (j > i + 1 && b[i] == 48) {
        None
    } else {
        Some((acc, j))
    }
}

fn scan_dot_number(b: &[u8], i: usize) -> (r: Option<(u64, usize)>)
    requires
        i <= b@.len(),
    ensures
        match r {
            Some((v, j)) => dot_number_at(b@, i as int) == Some((v, j as int)) && i < j
                <= b@.len(),
            None => dot_number_at(b@, i as int).is_none(),
        },
{
    if i < b.len() && b[i] == DOT {
        scan_number(b, i + 1)
    } else {
        None
    }
}

fn scan_suffix(b: &[u8], i: usize) -> (r: usize)
    requires
        i <= b@.len(),
    ensures
        r == suffix_end(b@, i as int),
        i <= r <= b@.len(),
{
    let mut j: usize = i;
    while j < b.len() && ((48 <= b[j] && b[j] <= 57) || (65 <= b[j] && b[j] <= 90) || (97 <= b[j]
        && b[j] <= 122) || b[j] == HYPHEN || b[j] == DOT)
        invariant
            i <= j <= b@.len(),
            suffix_end(b@, i as int) == suffix_end(b@, j as int),
        decreases b@.len() - j,
    {
        j = j + 1;
    }
    j
}

fn scan_ident_end(b: &[u8], i: usize) -> (r: usize)
    requires
        i <= b@.len(),
    ensures
        r == ident_end(b@, i as int),
        i <= r <= b@.len(),
{
    let mut j: usize = i;
    while j < b.len() && ((48 <= b[j] && b[j] <= 57) || (65 <= b[j] && b[j] <= 90) || (97 <= b[j]
        && b[j] <= 122) || b[j] == HYPHEN)
        invariant
            i <= j <= b@.len(),
            ident_end(b@, i as int) == ident_end(b@, j as int),
        decreases b@.len() - j,
    {
        j = j + 1;
    }
    j
}

fn scan_digits_end(b: &[u8], i: usize) -> (r: usize)
    requires
        i <= b@.len(),
    ensures
        r == digits_end(b@, i as int),
        i <= r <= b@.len(),
{
    let mut j: usize = i;
    while j < b.len() && 48 <= b[j] && b[j] <= 57
        invariant
            i <= j <= b@.len(),
            digits_end(b@, i as int) == digits_end(b@, j as int),
        decreases b@.len() - j,
    {
        j = j + 1;
    }
    j
}

fn scan_ident(b: &[u8], i: usize) -> (r: Option<(Ident, usize)>)
    requires
        i <= b@.len(),
    ensures
        match r {
            Some((x, j)) => ident_at(b@, i as int) == Some((x@, j as int)) && i < j <= b@.len(),
            None => ident_at(b@, i as int).is_none(),
        },
{
    let j: usize = scan_ident_end(b, i);
    if j <= i {
        None
    } else if scan_digits_end(b, i) == j {
        match scan_number(b, i) {
            Some((n, _)) => Some((Ident::Num(n), j)),
            None => None,
        }
    } else {
        let text = slice_to_vec(slice_subrange(b, i, j));
        Some((Ident::Text(text), j))
    }
}

/// The identifiers at `i` joined to those read before.
pub open spec fn after_read(
    read: Seq<IdentView>,
    rest: Option<(Seq<IdentView>, int)>,
) -> Option<(Seq<IdentView>, int)> {
    match rest {
        Some((more, k)) => Some((read + more, k)),
        None => None,
    }
}

fn scan_idents(b: &[u8], i: usize) -> (r: Option<(Vec<Ident>, usize)>)
    requires
        i <= b@.len(),
    ensures
        match r {
            Some((ids, j)) => idents_at(b@, i as int) == Some((ident_views(ids@), j as int)) && i
                < j <= b@.len(),
            None => idents_at(b@, i as int).is_none(),
        },
{
    let mut ids: Vec<Ident> = Vec::new();
    let mut cur: usize = i;
    assert(after_read(ident_views(ids@), idents_at(b@, cur as int)) =~= idents_at(b@, i as int)) by {
        match idents_at(b@, i as int) {
            Some((more, k)) => {
                assert(ident_views(ids@) + more =~= more);
            },
            None => {},
        }
    }
    loop
        invariant
            i <= cur <= b@.len(),
            idents_at(b@, i as int) == after_read(ident_views(ids@), idents_at(b@, cur as int)),
        decreases b@.len() - cur,
    {
        let ghost before = ident_views(ids@);
        match scan_ident(b, cur) {
            None => {
                return None;
            },
            Some((x, j)) => {
                let ghost xv = x@;
                ids.push(x);
                assert(ident_views(ids@) =~= before.push(xv));
                if j < b.len() && b[j] == DOT {
                    proof {
                        match idents_at(b@, j + 1) {
                            Some((more, k)) => {
                                assert(before + (seq![xv] + more) =~= before.push(xv) + more);
                            },
                            None => {},
                        }
                    }
                    cur = j + 1;
                } else {
                    assert(before + seq![xv] =~= before.push(xv));
                    return Some((ids, j));
                }
            },
        }
    }
}

fn scan_build(b: &[u8], i: usize) -> (r: bool)
    requires
        i <= b@.len(),
    ensures
        r == build_at(b@, i as int),
{
    i < b.len() && scan_suffix(b, i) == b.len()
}

/// Reads the version that the bytes of a tag state.
pub fn parse_bytes(b: &[u8]) -> (r: Option<Version>)
    ensures
        match r {
            Some(v) => parse_tag(b@) == Some(v@),
            None => parse_tag(b@).is_none(),
        },
{
    let start: usize = if b.len() > 0 && b[0] == LETTER_V {
        1
    } else {
        0
    };
    let (major, i1) = match scan_number(b, start) {
        None => { return None; },
        Some(p) => p,
    };
    let (minor, i2) = match scan_dot_number(b, i1) {
        None => { return None; },
        Some(p) => p,
    };
    let (patch, i3) = match scan_dot_number(b, i2) {
        None => { return None; },
        Some(p) => p,
    };
    if i3 == b.len() {
        let v = Version { major, minor, patch, pre: Vec::new() };
        assert(v@.pre =~= Seq::<IdentView>::empty());
        Some(v)
    } else if b[i3] == HYPHEN {
        match scan_idents(b, i3 + 1) {
            None => None,
            Some((pre, j)) => {
                if j == b.len() || (b[j] == PLUS && scan_build(b, j + 1)) {
                    Some(Version { major, minor, patch, pre })
                } else {
                    None
                }
            },
        }
    } else if b[i3] == PLUS && scan_build(b, i3 + 1) {
        let v = Version { major, minor, patch, pre: Vec::new() };
        assert(v@.pre =~= Seq::<IdentView>::empty());
        Some(v)
    } else {
        None
    }
}

/// Reads the version that a tag states: an optional leading `v`, three
/// decimal numbers separated by dots, then nothing, a prerelease suffix,
/// build metadata, or both.
pub fn parse_version(tag: &String) -> (r: Option<Version>)
    ensures
        match r {
            Some(v) => parse_tag(text_bytes(tag)) == Some(v@),
            None => parse_tag(text_bytes(tag)).is_none(),
        },
{
    parse_bytes(tag.as_str().as_bytes())
}

} // verus!
