//! The 60-column line layout: content padded to sixty columns with a
//! right-anchored marker, long content wrapped over several lines;
//! and the splitting of input into lines.

use vstd::prelude::*;

use crate::text::{pad_right, spec_pad_right};

verus! {

/// One or more 60-column lines carrying `content` and ending in
/// `marker`; content longer than sixty columns wraps, every chunk
/// carrying the same marker.
pub open spec fn spec_fmt_doris(content: Seq<u8>, marker: Seq<u8>) -> Seq<u8>
    decreases content.len(),
{
    if content.len() <= 60 {
        spec_pad_right(content, 60, 32) + marker
    } else {
        content.subrange(0, 60) + marker + seq![10u8] + spec_fmt_doris(
            content.subrange(60, content.len() as int),
            marker,
        )
    }
}

/// Lays out content in 60-column lines with a right-anchored marker.
pub fn fmt_doris(content: &[u8], marker: &[u8]) -> (r: Vec<u8>)
    ensures
        r@ == spec_fmt_doris(content@, marker@),
    decreases content@.len(),
{
    let len: usize = content.len();
    if len <= 60 {
        let mut out = pad_right(vstd::slice::slice_to_vec(content), 60, 32);
        let mut m = vstd::slice::slice_to_vec(marker);
        out.append(&mut m);
        out
    } else {
        let mut out = vstd::slice::slice_to_vec(&content[0..60]);
        let mut m = vstd::slice::slice_to_vec(marker);
        out.append(&mut m);
        out.push(10);
        let mut rest = fmt_doris(&content[60..len], marker);
        out.append(&mut rest);
        out
    }
}

/// Lays out a comment line, with the comment marker.
pub fn fmt_comment(content: &[u8]) -> (r: Vec<u8>)
    ensures
        r@ == spec_fmt_doris(content@, spec_comment_marker()),
{
    let mut m: Vec<u8> = Vec::new();
    m.push(67);
    m.push(79);
    m.push(77);
    m.push(77);
    m.push(69);
    m.push(78);
    m.push(84);
    proof {
        assert(m@ =~= spec_comment_marker());
    }
    fmt_doris(content, m.as_slice())
}

/// The bytes of the comment marker.
pub open spec fn spec_comment_marker() -> Seq<u8> {
    seq![67u8, 79, 77, 77, 69, 78, 84]
}

/// The lines of a byte stream: split at every line feed, with an
/// optional carriage return before it removed.
pub open spec fn spec_lines(s: Seq<u8>) -> Seq<Seq<u8>>
    decreases s.len(),
    via spec_lines_decreases
{
    if s.len() == 0 {
        Seq::empty()
    } else {
        let k = crate::numeric::spec_find_byte(s, 10);
        if k == s.len() {
            seq![spec_strip_cr(s)]
        } else {
            seq![spec_strip_cr(s.subrange(0, k))] + spec_lines(s.subrange(k + 1, s.len() as int))
        }
    }
}

#[via_fn]
proof fn spec_lines_decreases(s: Seq<u8>) {
    if s.len() > 0 {
        crate::numeric::lemma_find_byte(s, 10);
    }
}

/// A line without its trailing carriage return, if it has one.
pub open spec fn spec_strip_cr(s: Seq<u8>) -> Seq<u8> {
    if s.len() > 0 && s[s.len() - 1] == 13 {
        s.subrange(0, s.len() - 1)
    } else {
        s
    }
}

/// Splits a byte stream into its lines.
pub fn split_lines(s: &[u8]) -> (r: Vec<Vec<u8>>)
    ensures
        r@.len() == spec_lines(s@).len(),
        forall|i: int| 0 <= i < r@.len() ==> #[trigger] r@[i]@ == spec_lines(s@)[i],
{
    let len: usize = s.len();
    let mut r: Vec<Vec<u8>> = Vec::new();
    let mut i: usize = 0;
    proof {
        assert(s@.subrange(0, len as int) =~= s@);
    }
    while i < len
        invariant
            0 <= i <= len,
            len == s@.len(),
            r@.len() + spec_lines(s@.subrange(i as int, len as int)).len() == spec_lines(s@).len(),
            forall|q: int| 0 <= q < r@.len() ==> #[trigger] r@[q]@ == spec_lines(s@)[q],
            forall|q: int|
                0 <= q < spec_lines(s@.subrange(i as int, len as int)).len() ==> #[trigger]
                spec_lines(s@.subrange(i as int, len as int))[q] == spec_lines(s@)[r@.len() + q],
        decreases len - i,
    {
        let ghost rem = s@.subrange(i as int, len as int);
        let ghost done = r@.len() as int;
        let mut j: usize = i;
        while j < len && s[j] != 10
            invariant
                i <= j <= len,
                len == s@.len(),
                forall|q: int| i <= q < j ==> s@[q] != 10,
            decreases len - j,
        {
            j = j + 1;
        }
        proof {
            assert forall|w: int| 0 <= w < (j - i) implies rem[w] != 10 by {
                assert(rem[w] == s@[i + w]);
            }
            if (j - i) < rem.len() {
                assert(rem[(j - i) as int] == s@[j as int]);
                crate::numeric::lemma_find_byte_unique(rem, 10, j - i);
            } else {
                crate::numeric::lemma_find_byte(rem, 10);
                if crate::numeric::spec_find_byte(rem, 10) < rem.len() {
                    assert(rem[crate::numeric::spec_find_byte(rem, 10)] == 10);
                }
            }
            assert(crate::numeric::spec_find_byte(rem, 10) == j - i);
        }
        let mut endb: usize = j;
        if j > i && s[j - 1] == 13 {
            endb = j - 1;
        }
        let line: Vec<u8> = vstd::slice::slice_to_vec(&s[i..endb]);
        let ghost body = if (j - i) < rem.len() {
            rem.subrange(0, j - i)
        } else {
            rem
        };
        proof {
            assert(body =~= s@.subrange(i as int, j as int));
            assert(spec_strip_cr(body) =~= s@.subrange(i as int, endb as int));
            assert(line@ == spec_strip_cr(body));
        }
        r.push(line);
        let ghost rem_next = if j < len {
            s@.subrange(j + 1, len as int)
        } else {
            s@.subrange(len as int, len as int)
        };
        proof {
            if (j - i) < rem.len() {
                assert(rem.subrange((j - i) + 1, rem.len() as int) =~= rem_next);
                assert(spec_lines(rem) == seq![spec_strip_cr(body)] + spec_lines(rem_next));
            } else {
                assert(rem_next =~= Seq::<u8>::empty());
                assert(spec_lines(rem_next) =~= Seq::<Seq<u8>>::empty());
                assert(spec_lines(rem) == seq![spec_strip_cr(rem)]);
                assert(spec_lines(rem) =~= seq![spec_strip_cr(body)] + spec_lines(rem_next));
            }
        }
        if j < len {
            i = j + 1;
        } else {
            i = len;
        }
        proof {
            assert(s@.subrange(i as int, len as int) == rem_next);
            assert(spec_lines(rem)[0] == spec_strip_cr(body));
            assert(spec_lines(rem)[0] == spec_lines(s@)[done]);
            assert forall|q: int| 0 <= q < r@.len() implies #[trigger] r@[q]@ == spec_lines(s@)[q] by {
                if q == done {
                    assert(r@[q]@ == spec_strip_cr(body));
                }
            }
            assert forall|q: int|
                0 <= q < spec_lines(rem_next).len() implies #[trigger] spec_lines(rem_next)[q]
                == spec_lines(s@)[r@.len() + q] by {
                assert(spec_lines(rem)[q + 1] == spec_lines(rem_next)[q]);
                assert(spec_lines(rem)[q + 1] == spec_lines(s@)[done + q + 1]);
            }
        }
    }
    proof {
        assert(spec_lines(s@.subrange(len as int, len as int)) =~= Seq::<Seq<u8>>::empty());
    }
    r
}

/// The views of a sequence of byte vectors.
pub open spec fn views_of(v: Seq<Vec<u8>>) -> Seq<Seq<u8>> {
    Seq::new(v.len(), |i: int| v[i]@)
}


/// The split of a byte string at every occurrence of `b`, empties
/// kept.
pub open spec fn spec_split(s: Seq<u8>, b: u8) -> Seq<Seq<u8>>
    decreases s.len(),
    via spec_split_decreases
{
    let k = crate::numeric::spec_find_byte(s, b);
    if k == s.len() {
        seq![s]
    } else {
        seq![s.subrange(0, k)] + spec_split(s.subrange(k + 1, s.len() as int), b)
    }
}

#[via_fn]
proof fn spec_split_decreases(s: Seq<u8>, b: u8) {
    crate::numeric::lemma_find_byte(s, b);
}

/// Splits a byte string at every occurrence of `b`.
pub fn split_byte(s: &[u8], b: u8) -> (r: Vec<Vec<u8>>)
    ensures
        r@.len() == spec_split(s@, b).len(),
        forall|i: int| 0 <= i < r@.len() ==> #[trigger] r@[i]@ == spec_split(s@, b)[i],
{
    let len: usize = s.len();
    let mut r: Vec<Vec<u8>> = Vec::new();
    let mut i: usize = 0;
    proof {
        assert(s@.subrange(0, len as int) =~= s@);
    }
    loop
        invariant
            0 <= i <= len,
            len == s@.len(),
            r@.len() + spec_split(s@.subrange(i as int, len as int), b).len() == spec_split(
                s@,
                b,
            ).len(),
            forall|q: int| 0 <= q < r@.len() ==> #[trigger] r@[q]@ == spec_split(s@, b)[q],
            forall|q: int|
                0 <= q < spec_split(s@.subrange(i as int, len as int), b).len() ==> #[trigger]
                spec_split(s@.subrange(i as int, len as int), b)[q] == spec_split(s@, b)[r@.len()
                    + q],
        decreases len - i + 1,
    {
        let ghost rem = s@.subrange(i as int, len as int);
        let ghost done = r@.len() as int;
        let mut j: usize = i;
        while j < len && s[j] != b
            invariant
                i <= j <= len,
                len == s@.len(),
                forall|q: int| i <= q < j ==> s@[q] != b,
            decreases len - j,
        {
            j = j + 1;
        }
        proof {
            assert forall|w: int| 0 <= w < (j - i) implies rem[w] != b by {
                assert(rem[w] == s@[i + w]);
            }
            if (j - i) < rem.len() {
                assert(rem[(j - i) as int] == s@[j as int]);
                crate::numeric::lemma_find_byte_unique(rem, b, j - i);
            } else {
                crate::numeric::lemma_find_byte(rem, b);
                if crate::numeric::spec_find_byte(rem, b) < rem.len() {
                    assert(rem[crate::numeric::spec_find_byte(rem, b)] == b);
                }
            }
            assert(crate::numeric::spec_find_byte(rem, b) == j - i);
        }
        let piece: Vec<u8> = vstd::slice::slice_to_vec(&s[i..j]);
        let ghost body = if (j - i) < rem.len() {
            rem.subrange(0, j - i)
        } else {
            rem
        };
        proof {
            assert(body =~= s@.subrange(i as int, j as int));
            assert(piece@ == body);
        }
        r.push(piece);
        let ghost rem_next = s@.subrange(j + 1, len as int);
        proof {
            if (j - i) < rem.len() {
                assert(rem.subrange((j - i) + 1, rem.len() as int) =~= rem_next);
                assert(spec_split(rem, b) == seq![body] + spec_split(rem_next, b));
            } else {
                assert(spec_split(rem, b) == seq![rem]);
            }
        }
        if j >= len {
            proof {
                assert(spec_split(rem, b)[0] == body);
                assert forall|q: int| 0 <= q < r@.len() implies #[trigger] r@[q]@ == spec_split(
                    s@,
                    b,
                )[q] by {
                    if q == done {
                        assert(spec_split(rem, b)[0] == spec_split(s@, b)[done]);
                    }
                }
            }
            return r;
        }
        i = j + 1;
        proof {
            assert(s@.subrange(i as int, len as int) == rem_next);
            assert(spec_split(rem, b)[0] == spec_split(s@, b)[done]);
            assert forall|q: int| 0 <= q < r@.len() implies #[trigger] r@[q]@ == spec_split(s@, b)[q]
                by {
                if q == done {
                    assert(r@[q]@ == body);
                }
            }
            assert forall|q: int|
                0 <= q < spec_split(rem_next, b).len() implies #[trigger] spec_split(
                rem_next,
                b,
            )[q] == spec_split(s@, b)[r@.len() + q] by {
                assert(spec_split(rem, b)[q + 1] == spec_split(rem_next, b)[q]);
                assert(spec_split(rem, b)[q + 1] == spec_split(s@, b)[done + q + 1]);
            }
        }
    }
}

} // verus!
