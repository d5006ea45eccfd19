//! Break offsets: a strictly increasing sequence of positions in a text,
//! every one of them past the start, ending with the text's length.

use vstd::prelude::*;

verus! {

/// The last offset kept so far, or 0 when none is.
pub open spec fn last_kept(k: Seq<u32>) -> nat {
    if k.len() == 0 {
        0
    } else {
        k.last() as nat
    }
}

/// The breakpoints of `raw` that lie in `(0, len]` and exceed every
/// breakpoint kept before them, in their order.
pub open spec fn kept_breakpoints(raw: Seq<usize>, len: nat) -> Seq<u32>
    decreases raw.len(),
{
    if raw.len() == 0 {
        seq![]
    } else {
        let k = kept_breakpoints(raw.drop_last(), len);
        let x = raw.last();
        if last_kept(k) < x && x <= len {
            k.push(x as u32)
        } else {
            k
        }
    }
}

/// The offsets reported for a text of `len` bytes whose segmenter gave the
/// breakpoints `raw`: the kept breakpoints, closed by `len` when they do not
/// already end with it.
pub open spec fn break_offsets(raw: Seq<usize>, len: nat) -> Seq<u32> {
    let k = kept_breakpoints(raw, len);
    if k.len() > 0 && k.last() == len {
        k
    } else {
        k.push(len as u32)
    }
}

/// Offsets that strictly increase.
pub open spec fn strictly_increasing(s: Seq<u32>) -> bool {
    forall|i: int, j: int| 0 <= i < j < s.len() ==> s[i] < s[j]
}

/// Every offset lies in `(0, len]`.
pub open spec fn within(s: Seq<u32>, len: nat) -> bool {
    forall|i: int| 0 <= i < s.len() ==> 0 < s[i] && s[i] <= len
}

/// Breakpoints that start at 0, strictly increase and end at `len`.
pub open spec fn well_formed_breakpoints(raw: Seq<usize>, len: nat) -> bool {
    &&& raw.len() >= 1
    &&& raw[0] == 0
    &&& raw.last() == len
    &&& forall|i: int, j: int| 0 <= i < j < raw.len() ==> raw[i] < raw[j]
}

/// Breakpoints as offsets.
pub open spec fn as_offsets(raw: Seq<usize>) -> Seq<u32> {
    raw.map_values(|x: usize| x as u32)
}

/// On breakpoints that start at 0 and strictly increase up to at most
/// `len`, keeping drops the leading 0 and nothing else.
pub proof fn lemma_kept_well_formed(raw: Seq<usize>, len: nat)
    requires
        raw.len() >= 1,
        raw[0] == 0,
        forall|i: int, j: int| 0 <= i < j < raw.len() ==> raw[i] < raw[j],
        forall|i: int| 0 <= i < raw.len() ==> raw[i] <= len,
    ensures
        kept_breakpoints(raw, len) == as_offsets(raw.drop_first()),
    decreases raw.len(),
{
    if raw.len() == 1 {
        assert(kept_breakpoints(raw.drop_last(), len) == Seq::<u32>::empty());
        assert(as_offsets(raw.drop_first()) =~= Seq::<u32>::empty());
    } else {
        let d = raw.drop_last();
        lemma_kept_well_formed(d, len);
        assert(as_offsets(raw.drop_first()) =~= as_offsets(d.drop_first()).push(
            raw.last() as u32,
        ));
        if d.len() >= 2 {
            assert(raw[raw.len() - 2] < raw.last());
        }
    }
}

/// The kept breakpoints strictly increase and lie in `(0, len]`.
pub proof fn lemma_kept_breakpoints(raw: Seq<usize>, len: nat)
    requires
        len <= u32::MAX,
    ensures
        strictly_increasing(kept_breakpoints(raw, len)),
        within(kept_breakpoints(raw, len), len),
    decreases raw.len(),
{
    if raw.len() > 0 {
        lemma_kept_breakpoints(raw.drop_last(), len);
    }
}

/// Whatever the breakpoints, the offsets strictly increase, there is at
/// least one, and the last is the text's length; for an empty text the
/// offsets are exactly `[0]`.
pub proof fn lemma_break_offsets(raw: Seq<usize>, len: nat)
    requires
        len <= u32::MAX,
    ensures
        strictly_increasing(break_offsets(raw, len)),
        break_offsets(raw, len).len() >= 1,
        break_offsets(raw, len).last() == len,
        len == 0 ==> break_offsets(raw, len) == seq![0u32],
{
    lemma_kept_breakpoints(raw, len);
    let k = kept_breakpoints(raw, len);
    if len == 0 {
        if k.len() > 0 {
            assert(0 < k[0] && k[0] <= len);
        }
        assert(break_offsets(raw, len) =~= seq![0u32]);
    }
}

/// Turns the breakpoints that the segmenter gave for a text of `len` bytes
/// into its break offsets.
pub fn offsets_from_breakpoints(raw: &Vec<usize>, len: usize) -> (r: Vec<u32>)
    requires
        len <= u32::MAX,
    ensures
        r@ == break_offsets(raw@, len as nat),
        strictly_increasing(r@),
        r@.len() >= 1,
        r@.last() == len,
        len == 0 ==> r@ == seq![0u32],
        well_formed_breakpoints(raw@, len as nat) && len > 0 ==> r@ == as_offsets(
            raw@.drop_first(),
        ),
{
    let mut out: Vec<u32> = Vec::new();
    let mut last: usize = 0;
    let mut i: usize = 0;
    while i < raw.len()
        invariant
            len <= u32::MAX,
            i <= raw@.len(),
            out@ == kept_breakpoints(raw@.take(i as int), len as nat),
            last as nat == last_kept(out@),
        decreases raw@.len() - i,
    {
        let x = raw[i];
        proof {
            assert(raw@.take(i as int + 1).drop_last() =~= raw@.take(i as int));
        }
        if last < x && x <= len {
            out.push(x as u32);
            last = x;
        }
        i = i + 1;
    }
    proof {
        assert(raw@.take(raw@.len() as int) =~= raw@);
        lemma_break_offsets(raw@, len as nat);
        if well_formed_breakpoints(raw@, len as nat) && len > 0 {
            lemma_kept_well_formed(raw@, len as nat);
            assert(raw@.len() >= 2);
        }
    }
    if out.len() == 0 || last != len {
        out.push(len as u32);
    }
    out
}

} // verus!
