use vstd::prelude::*;
use vstd::string::StrSliceExecFns;

verus! {

/// The UTF-16 code units of one character: one unit for the basic plane,
/// a surrogate pair beyond it.
pub open spec fn spec_char_utf16(c: char) -> Seq<u16> {
    if (c as int) < 0x10000 {
        seq![c as u16]
    } else {
        seq![
            (0xD800 + ((c as int) - 0x10000) / 0x400) as u16,
            (0xDC00 + ((c as int) - 0x10000) % 0x400) as u16,
        ]
    }
}

/// The UTF-16 code units of a character sequence, front to back.
pub open spec fn spec_utf16_units(s: Seq<char>) -> Seq<u16>
    decreases s.len(),
{
    if s.len() == 0 {
        Seq::empty()
    } else {
        spec_char_utf16(s[0]) + spec_utf16_units(s.skip(1))
    }
}

/// The unit sequence of a split text is the two parts' unit sequences,
/// joined.
proof fn lemma_utf16_units_split(s: Seq<char>, k: int)
    requires
        0 <= k <= s.len(),
    ensures
        spec_utf16_units(s) == spec_utf16_units(s.take(k)) + spec_utf16_units(s.skip(k)),
    decreases k,
{
    if k == 0 {
        assert(s.take(0) =~= Seq::<char>::empty());
        assert(s.skip(0) =~= s);
        assert(spec_utf16_units(s) =~= spec_utf16_units(s.take(0)) + spec_utf16_units(s.skip(0)));
    } else {
        let t = s.take(k);
        assert(t[0] == s[0]);
        assert(t.skip(1) =~= s.skip(1).take(k - 1));
        lemma_utf16_units_split(s.skip(1), k - 1);
        assert(s.skip(1).skip(k - 1) =~= s.skip(k));
        assert(spec_utf16_units(s) == spec_char_utf16(s[0]) + spec_utf16_units(s.skip(1)));
        assert(spec_utf16_units(t) == spec_char_utf16(s[0]) + spec_utf16_units(
            s.skip(1).take(k - 1),
        ));
        assert(spec_utf16_units(s) =~= spec_utf16_units(t) + spec_utf16_units(s.skip(k)));
    }
}

/// One more character appends its units to the prefix's units.
proof fn lemma_utf16_units_step(s: Seq<char>, k: int)
    requires
        0 <= k < s.len(),
    ensures
        spec_utf16_units(s.take(k + 1)) == spec_utf16_units(s.take(k)) + spec_char_utf16(s[k]),
{
    lemma_utf16_units_split(s.take(k + 1), k);
    assert(s.take(k + 1).take(k) =~= s.take(k));
    let last = s.take(k + 1).skip(k);
    assert(last.len() == 1);
    assert(last[0] == s[k]);
    assert(spec_utf16_units(last) == spec_char_utf16(s[k]) + spec_utf16_units(last.skip(1)));
    assert(last.skip(1) =~= Seq::<char>::empty());
    assert(spec_utf16_units(last) =~= spec_char_utf16(s[k]));
}

/// Encodes `s` into a buffer of exactly `l` UTF-16 code units: the first
/// `l - 1` units at most, in order, with every remaining position zero, so
/// that the result is always terminated. A text whose units do not fit is
/// cut off at whole units, splitting a surrogate pair if need be.
pub fn as_utf16(s: &str, l: usize) -> (r: Vec<u16>)
    requires
        l >= 1,
    ensures
        r@.len() == l,
        ({
            let units = spec_utf16_units(s@);
            let m = if units.len() <= l - 1 {
                units.len() as int
            } else {
                l - 1
            };
            &&& forall|i: int| 0 <= i < m ==> r@[i] == units[i]
            &&& forall|i: int| m <= i < l ==> r@[i] == 0u16
        }),
{
    let ghost units = spec_utf16_units(s@);
    let mut buff: Vec<u16> = Vec::new();
    let n = s.unicode_len();
    let mut k: usize = 0;
    proof {
        assert(s@.take(0) =~= Seq::<char>::empty());
    }
    while k < n && buff.len() < l - 1
        invariant
            l >= 1,
            k <= n,
            n == s@.len(),
            units == spec_utf16_units(s@),
            buff@.len() <= l - 1,
            buff@ == units.take(buff@.len() as int),
            buff@.len() >= spec_utf16_units(s@.take(k as int)).len() - 1,
            buff@.len() <= spec_utf16_units(s@.take(k as int)).len(),
            buff@.len() < l - 1 ==> buff@ == spec_utf16_units(s@.take(k as int)),
            buff@.len() < spec_utf16_units(s@.take(k as int)).len() ==> buff@.len() == l - 1,
        decreases n - k,
    {
        let c = s.get_char(k);
        let code = c as u32;
        proof {
            lemma_utf16_units_step(s@, k as int);
            lemma_utf16_units_split(s@, k as int);
            lemma_utf16_units_split(s@, k + 1);
            assert(spec_utf16_units(s@.take(k as int)).len() <= units.len());
            assert(forall|i: int|
                0 <= i < spec_utf16_units(s@.take(k + 1)).len() ==> units[i] == spec_utf16_units(
                    s@.take(k + 1),
                )[i]);
        }
        if code < 0x10000 {
            buff.push(code as u16);
        } else {
            let v = code - 0x10000;
            buff.push((0xD800 + v / 0x400) as u16);
            if buff.len() < l - 1 {
                buff.push((0xDC00 + v % 0x400) as u16);
            }
        }
        proof {
            assert(buff@ =~= units.take(buff@.len() as int));
        }
        k = k + 1;
    }
    proof {
        if k == n {
            assert(s@.take(k as int) =~= s@);
        } else {
            assert(buff@.len() == l - 1);
        }
        lemma_utf16_units_split(s@, k as int);
    }
    while buff.len() < l
        invariant
            buff@.len() <= l,
            units == spec_utf16_units(s@),
            ({
                let m = if units.len() <= l - 1 {
                    units.len() as int
                } else {
                    l - 1
                };
                &&& m <= buff@.len()
                &&& forall|i: int| 0 <= i < m ==> buff@[i] == units[i]
                &&& forall|i: int| m <= i < buff@.len() ==> buff@[i] == 0u16
            }),
        decreases l - buff@.len(),
    {
        buff.push(0u16);
    }
    buff
}


/// Encodes the whole text into UTF-16 code units.
pub fn encode_utf16(s: &str) -> (r: Vec<u16>)
    ensures
        r@ == spec_utf16_units(s@),
{
    let mut buff: Vec<u16> = Vec::new();
    let n = s.unicode_len();
    let mut k: usize = 0;
    proof {
        assert(s@.take(0) =~= Seq::<char>::empty());
    }
    while k < n
        invariant
            k <= n,
            n == s@.len(),
            buff@ == spec_utf16_units(s@.take(k as int)),
        decreases n - k,
    {
        let c = s.get_char(k);
        let code = c as u32;
        proof {
            lemma_utf16_units_step(s@, k as int);
        }
        if code < 0x10000 {
            buff.push(code as u16);
        } else {
            let v = code - 0x10000;
            buff.push((0xD800 + v / 0x400) as u16);
            buff.push((0xDC00 + v % 0x400) as u16);
        }
        proof {
            assert(buff@ =~= spec_utf16_units(s@.take(k + 1)));
        }
        k = k + 1;
    }
    proof {
        assert(s@.take(n as int) =~= s@);
    }
    buff
}

/// How many units of text one console buffer carries: the buffer holds
/// `CHUNK_UNITS + 1` units and always ends in a terminator.
pub const CHUNK_UNITS: usize = 1023;

/// Splits a text into terminated console buffers: each chunk holds the
/// next `CHUNK_UNITS` code units at most, zero-padded to the fixed buffer
/// size, so that a bounded console call can print the text piecewise. An
/// empty text needs no chunk.
pub fn utf16_chunks(s: &str) -> (r: Vec<Vec<u16>>)
    ensures
        ({
            let units = spec_utf16_units(s@);
            &&& (r@.len() == 0 <==> units.len() == 0)
            &&& units.len() > 0 ==> CHUNK_UNITS * (r@.len() - 1) < units.len() <= CHUNK_UNITS
                * r@.len()
            &&& forall|i: int|
                0 <= i < r@.len() ==> #[trigger] r@[i]@.len() == CHUNK_UNITS + 1
            &&& forall|i: int, j: int|
                0 <= i < r@.len() && 0 <= j < CHUNK_UNITS + 1 ==> #[trigger] r@[i]@[j] == (
                if j < CHUNK_UNITS && CHUNK_UNITS * i + j < units.len() {
                    units[CHUNK_UNITS * i + j]
                } else {
                    0u16
                })
        }),
{
    let units = encode_utf16(s);
    let n = units.len();
    let mut chunks: Vec<Vec<u16>> = Vec::new();
    let mut pos: usize = 0;
    while pos < n
        invariant
            pos <= n,
            n == spec_utf16_units(s@).len(),
            units@ == spec_utf16_units(s@),
            pos == CHUNK_UNITS * chunks@.len() || (pos == n && chunks@.len() >= 1 && CHUNK_UNITS
                * (chunks@.len() - 1) < n <= CHUNK_UNITS * chunks@.len()),
            n > 0 || chunks@.len() == 0,
            forall|i: int|
                0 <= i < chunks@.len() ==> #[trigger] chunks@[i]@.len() == CHUNK_UNITS + 1,
            forall|i: int, j: int|
                0 <= i < chunks@.len() && 0 <= j < CHUNK_UNITS + 1 ==> #[trigger] chunks@[i]@[j]
                    == (if j < CHUNK_UNITS && CHUNK_UNITS * i + j < n {
                    units@[CHUNK_UNITS * i + j]
                } else {
                    0u16
                }),
        decreases n - pos,
    {
        let take = if n - pos < CHUNK_UNITS {
            n - pos
        } else {
            CHUNK_UNITS
        };
        let mut chunk: Vec<u16> = Vec::new();
        let mut j: usize = 0;
        while j < take
            invariant
                j <= take,
                pos + take <= n,
                n == units@.len(),
                chunk@.len() == j,
                forall|l: int| 0 <= l < j ==> chunk@[l] == units@[pos + l],
            decreases take - j,
        {
            chunk.push(units[pos + j]);
            j = j + 1;
        }
        while chunk.len() < CHUNK_UNITS + 1
            invariant
                take <= chunk@.len() <= CHUNK_UNITS + 1,
                n == units@.len(),
                pos + take <= n,
                forall|l: int| 0 <= l < take ==> chunk@[l] == units@[pos + l],
                forall|l: int| take <= l < chunk@.len() ==> chunk@[l] == 0u16,
            decreases CHUNK_UNITS + 1 - chunk@.len(),
        {
            chunk.push(0u16);
        }
        chunks.push(chunk);
        pos = pos + take;
        proof {
            if pos < n {
                assert(pos == CHUNK_UNITS * (chunks@.len() - 1) + take);
                assert(take == CHUNK_UNITS);
            }
        }
    }
    proof {
        if n > 0 {
            assert(chunks@.len() > 0);
        }
    }
    chunks
}

} // verus!
