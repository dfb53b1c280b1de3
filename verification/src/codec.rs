//! The text of the state files: fields, each closed by a separator byte.

use vstd::prelude::*;

verus! {

/// The byte that closes a field of a state file: the line feed.
pub const LINE_END: u8 = 10;

/// The fields in their order, each followed by the separator.
pub open spec fn joined(fields: Seq<Seq<u8>>, sep: u8) -> Seq<u8>
    decreases fields.len(),
{
    if fields.len() == 0 {
        Seq::empty()
    } else {
        joined(fields.drop_last(), sep) + fields.last().push(sep)
    }
}

/// No field holds the separator.
pub open spec fn all_free_of(fields: Seq<Seq<u8>>, sep: u8) -> bool {
    forall|i: int| 0 <= i < fields.len() ==> !(#[trigger] fields[i]).contains(sep)
}

/// The contents of a list of byte vectors.
pub open spec fn byte_rows(v: Seq<Vec<u8>>) -> Seq<Seq<u8>> {
    v.map_values(|f: Vec<u8>| f@)
}

/// Writes the fields one after the other, each followed by the separator.
pub fn join(fields: &Vec<Vec<u8>>, sep: u8) -> (r: Vec<u8>)
    ensures
        r@ == joined(byte_rows(fields@), sep),
{
    let ghost rows = byte_rows(fields@);
    let mut out: Vec<u8> = Vec::new();
    let mut i: usize = 0;
    assert(out@ =~= joined(rows.take(0), sep));
    while i < fields.len()
        invariant
            i <= fields@.len(),
            rows == byte_rows(fields@),
            out@ == joined(rows.take(i as int), sep),
        decreases fields@.len() - i,
    {
        let f = &fields[i];
        let ghost base = out@;
        let mut k: usize = 0;
        while k < f.len()
            invariant
                k <= f@.len(),
                out@ == base + f@.take(k as int),
            decreases f@.len() - k,
        {
            out.push(f[k]);
            assert(f@.take(k + 1) =~= f@.take(k as int).push(f@[k as int]));
            assert(out@ =~= base + f@.take(k + 1));
            k = k + 1;
        }
        out.push(sep);
        proof {
            assert(f@.take(k as int) =~= f@);
            assert(rows.take(i + 1).drop_last() =~= rows.take(i as int));
            assert(rows.take(i + 1).last() == f@);
            assert(out@ =~= base + f@.push(sep));
        }
        i = i + 1;
    }
    assert(rows.take(i as int) =~= rows);
    out
}

/// Reads the fields of a text back. A text whose last field is not
/// closed has no reading.
pub fn split(bytes: &[u8], sep: u8) -> (r: Option<Vec<Vec<u8>>>)
    ensures
        match r {
            Some(fields) => joined(byte_rows(fields@), sep) == bytes@ && all_free_of(
                byte_rows(fields@),
                sep,
            ),
            None => bytes@.len() > 0 && bytes@.last() != sep,
        },
{
    let mut out: Vec<Vec<u8>> = Vec::new();
    let mut cur: Vec<u8> = Vec::new();
    let mut i: usize = 0;
    let ghost mut start: int = 0;
    assert(joined(byte_rows(out@), sep) =~= bytes@.take(0));
    while i < bytes.len()
        invariant
            0 <= start <= i <= bytes@.len(),
            joined(byte_rows(out@), sep) == bytes@.take(start),
            all_free_of(byte_rows(out@), sep),
            cur@ == bytes@.subrange(start, i as int),
            !cur@.contains(sep),
        decreases bytes@.len() - i,
    {
        let b: u8 = bytes[i];
        if b == sep {
            let ghost before = byte_rows(out@);
            let ghost field = cur@;
            out.push(cur);
            cur = Vec::new();
            proof {
                let rows = byte_rows(out@);
                assert(rows =~= before.push(field));
                assert(rows.drop_last() =~= before);
                assert(rows.last() == field);
                assert(bytes@.take(i + 1) =~= bytes@.take(start) + field.push(sep));
                start = i + 1;
                assert(cur@ =~= bytes@.subrange(start, i + 1));
            }
        } else {
            let ghost old_cur = cur@;
            cur.push(b);
            proof {
                assert(cur@ =~= bytes@.subrange(start, i + 1));
                assert forall|m: int| 0 <= m < cur@.len() implies cur@[m] != sep by {
                    if m < old_cur.len() {
                        assert(old_cur[m] == cur@[m]);
                        assert(old_cur.contains(old_cur[m]));
                    }
                }
            }
        }
        i = i + 1;
    }
    if cur.len() == 0 {
        assert(bytes@.take(start) =~= bytes@);
        Some(out)
    } else {
        proof {
            assert(cur@.last() == bytes@.last());
            assert(cur@.contains(cur@.last()));
        }
        None
    }
}

/// A joined text is empty, or ends with the separator.
pub proof fn lemma_joined_ends_closed(fields: Seq<Seq<u8>>, sep: u8)
    ensures
        joined(fields, sep).len() >= fields.len(),
        fields.len() > 0 ==> joined(fields, sep).last() == sep,
    decreases fields.len(),
{
    if fields.len() > 0 {
        lemma_joined_ends_closed(fields.drop_last(), sep);
    }
}

/// A text has one reading at most: fields that are free of the
/// separator are the only such fields that join to their text. So what
/// `split` reads from what `join` wrote is what was written.
pub proof fn law_joined_text_reads_one_way(a: Seq<Seq<u8>>, b: Seq<Seq<u8>>, sep: u8)
    requires
        all_free_of(a, sep),
        all_free_of(b, sep),
        joined(a, sep) == joined(b, sep),
    ensures
        a == b,
    decreases a.len(),
{
    lemma_joined_ends_closed(a, sep);
    lemma_joined_ends_closed(b, sep);
    if a.len() == 0 || b.len() == 0 {
        assert(a =~= b);
    } else {
        let x = joined(a.drop_last(), sep);
        let y = joined(b.drop_last(), sep);
        let fa = a.last();
        let fb = b.last();
        let t = joined(a, sep);
        assert(t == x + fa.push(sep));
        assert(t == y + fb.push(sep));
        lemma_joined_ends_closed(a.drop_last(), sep);
        lemma_joined_ends_closed(b.drop_last(), sep);
        if fa.len() < fb.len() {
            let p = x.len() - 1;
            assert(x.len() > 0);
            assert(t[p] == x[p]);
            assert(t[p] == fb.push(sep)[p - y.len()]);
            assert(fb[p - y.len()] == sep);
            assert(fb.contains(sep));
            assert(false);
        } else if fb.len() < fa.len() {
            let p = y.len() - 1;
            assert(y.len() > 0);
            assert(t[p] == y[p]);
            assert(t[p] == fa.push(sep)[p - x.len()]);
            assert(fa[p - x.len()] == sep);
            assert(fa.contains(sep));
            assert(false);
        } else {
            assert(x.len() == y.len());
            assert(x =~= t.take(x.len() as int));
            assert(y =~= t.take(x.len() as int));
            assert(fa =~= t.subrange(x.len() as int, t.len() - 1));
            assert(fb =~= t.subrange(x.len() as int, t.len() - 1));
            assert(all_free_of(a.drop_last(), sep)) by {
                assert forall|i: int| 0 <= i < a.drop_last().len() implies !(
                #[trigger] a.drop_last()[i]).contains(sep) by {
                    assert(a.drop_last()[i] == a[i]);
                }
            }
            assert(all_free_of(b.drop_last(), sep)) by {
                assert forall|i: int| 0 <= i < b.drop_last().len() implies !(
                #[trigger] b.drop_last()[i]).contains(sep) by {
                    assert(b.drop_last()[i] == b[i]);
                }
            }
            law_joined_text_reads_one_way(a.drop_last(), b.drop_last(), sep);
            assert(a =~= a.drop_last().push(fa));
            assert(b =~= b.drop_last().push(fb));
        }
    }
}

} // verus!
