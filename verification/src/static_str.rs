use vstd::prelude::*;
use vstd::slice::slice_subrange;
use vstd::string::StringSliceAdditionalSpecFns;

verus! {

/// A fixed-capacity text buffer of at most `C` bytes that never
/// reallocates: the console path formats messages into one of these before
/// handing them on, since the boot environment has no growable heap
/// strings to spare.
#[derive(Debug)]
pub struct StaticStr<const C: usize> {
    buff: Vec<u8>,
    len: usize,
}

impl<const C: usize> StaticStr<C> {
    /// The text held so far.
    pub closed spec fn bytes(&self) -> Seq<u8> {
        self.buff@.take(self.len as int)
    }

    /// The storage covers the full capacity and the text fits it.
    pub closed spec fn wf(&self) -> bool {
        &&& self.buff@.len() == C
        &&& self.len <= C
    }

    /// An empty buffer.
    pub fn new() -> (r: Self)
        ensures
            r.wf(),
            r.bytes() == Seq::<u8>::empty(),
    {
        let mut buff: Vec<u8> = Vec::new();
        while buff.len() < C
            invariant
                buff@.len() <= C,
            decreases C - buff@.len(),
        {
            buff.push(0u8);
        }
        let r = Self { buff, len: 0 };
        proof {
            assert(r.bytes() =~= Seq::<u8>::empty());
        }
        r
    }

    /// A buffer holding `s`, which must fit the capacity.
    pub fn from(s: &str) -> (r: Self)
        requires
            s.spec_bytes().len() <= C,
        ensures
            r.wf(),
            r.bytes() == s.spec_bytes(),
    {
        let mut r = Self::new();
        let fitted = r.write_str(s);
        proof {
            assert(fitted);
            assert(Seq::<u8>::empty() + s.spec_bytes() =~= s.spec_bytes());
        }
        r
    }

    /// Appends `s` whole if it fits the remaining room, and reports
    /// whether it did; a text that does not fit leaves the buffer as it
    /// was.
    pub fn write_str(&mut self, s: &str) -> (r: bool)
        requires
            old(self).wf(),
        ensures
            final(self).wf(),
            r == (old(self).bytes().len() + s.spec_bytes().len() <= C),
            r ==> final(self).bytes() == old(self).bytes() + s.spec_bytes(),
            !r ==> final(self).bytes() == old(self).bytes(),
    {
        let b = s.as_bytes();
        let room = C - self.len;
        if b.len() > room {
            return false;
        }
        let base = self.len;
        let n = b.len();
        let mut i: usize = 0;
        while i < n
            invariant
                i <= n,
                base + n <= C,
                self.buff@.len() == C,
                self.len == base,
                n == s.spec_bytes().len(),
                b@ == s.spec_bytes(),
                self.buff@.take(base as int) == old(self).bytes(),
                forall|j: int| 0 <= j < i ==> self.buff@[base + j] == s.spec_bytes()[j],
            decreases n - i,
        {
            let byte = *vstd::slice::slice_index_get(b, i);
            self.buff.set(base + i, byte);
            proof {
                assert(self.buff@.take(base as int) =~= old(self).bytes());
            }
            i = i + 1;
        }
        self.len = base + n;
        proof {
            assert(self.bytes() =~= old(self).bytes() + s.spec_bytes());
        }
        true
    }

    /// How many bytes the buffer holds.
    pub fn len(&self) -> (r: usize)
        requires
            self.wf(),
        ensures
            r == self.bytes().len(),
    {
        self.len
    }

    /// The text held so far, as bytes.
    pub fn as_bytes(&self) -> (r: &[u8])
        requires
            self.wf(),
        ensures
            r@ == self.bytes(),
    {
        slice_subrange(self.buff.as_slice(), 0, self.len)
    }
}

} // verus!
