//! Splits the raw byte stream arriving from the transport into discrete
//! records on a single zero delimiter byte, tolerating records that span
//! several reads.

use vstd::prelude::*;

verus! {

/// Reads a byte stream left to right: a zero byte closes the record gathered
/// so far, any other byte extends it. Yields the closed records in order and
/// the trailing partial record.
pub open spec fn framed(s: Seq<u8>) -> (Seq<Seq<u8>>, Seq<u8>)
    decreases s.len(),
{
    if s.len() == 0 {
        (seq![], seq![])
    } else {
        let prev = framed(s.drop_last());
        if s.last() == 0 {
            (prev.0.push(prev.1), seq![])
        } else {
            (prev.0, prev.1.push(s.last()))
        }
    }
}

/// A stream with no delimiter closes no record: all of it stays partial.
pub proof fn lemma_framed_no_delim(s: Seq<u8>)
    requires
        forall|i: int| 0 <= i < s.len() ==> s[i] != 0,
    ensures
        framed(s) == (Seq::<Seq<u8>>::empty(), s),
    decreases s.len(),
{
    if s.len() != 0 {
        lemma_framed_no_delim(s.drop_last());
        assert(s.drop_last().push(s.last()) =~= s);
    }
}

/// The partial record never holds a delimiter.
pub proof fn lemma_framed_partial_no_delim(s: Seq<u8>)
    ensures
        forall|i: int| 0 <= i < framed(s).1.len() ==> framed(s).1[i] != 0,
    decreases s.len(),
{
    if s.len() != 0 {
        lemma_framed_partial_no_delim(s.drop_last());
        let prev = framed(s.drop_last());
        if s.last() != 0 {
            assert forall|i: int| 0 <= i < framed(s).1.len() implies framed(s).1[i] != 0 by {
                if i < prev.1.len() {
                    assert(framed(s).1[i] == prev.1[i]);
                } else {
                    assert(framed(s).1[i] == s.last());
                }
            }
        }
    }
}

/// Feeding a stream in two pieces closes the same records as feeding it
/// whole: the partial record carried out of the first piece stands in front
/// of the second. This is what lets a record span several reads.
pub proof fn lemma_framed_append(a: Seq<u8>, b: Seq<u8>)
    ensures
        framed(a + b).0 == framed(a).0 + framed(framed(a).1 + b).0,
        framed(a + b).1 == framed(framed(a).1 + b).1,
    decreases b.len(),
{
    if b.len() == 0 {
        assert(a + b =~= a);
        lemma_framed_partial_no_delim(a);
        lemma_framed_no_delim(framed(a).1);
        assert(framed(a).1 + b =~= framed(a).1);
        assert(framed(a).0 + framed(framed(a).1 + b).0 =~~= framed(a).0);
    } else {
        lemma_framed_append(a, b.drop_last());
        assert((a + b).drop_last() =~= a + b.drop_last());
        assert((framed(a).1 + b).drop_last() =~= framed(a).1 + b.drop_last());
        assert((a + b).last() == (framed(a).1 + b).last());
        if (a + b).last() == 0 {
            assert(framed(a + b).0 =~~= framed(a).0 + framed(framed(a).1 + b).0);
        }
    }
}

/// Splits the transport's byte stream into zero-delimited records, keeping
/// the partial record between calls.
pub struct Framer {
    partial: Vec<u8>,
}

impl Framer {
    /// The bytes of the record begun but not yet closed.
    pub closed spec fn pending(&self) -> Seq<u8> {
        self.partial@
    }

    /// The carried partial record never holds a delimiter.
    pub closed spec fn wf(&self) -> bool {
        forall|i: int| 0 <= i < self.partial@.len() ==> self.partial@[i] != 0
    }

    pub fn new() -> (f: Framer)
        ensures
            f.pending() == Seq::<u8>::empty(),
            f.wf(),
    {
        Framer { partial: Vec::new() }
    }

    /// Feeds one read's worth of bytes and returns the records it closed, in
    /// arrival order and without their delimiters.
    pub fn push_chunk(&mut self, chunk: &Vec<u8>) -> (out: Vec<Vec<u8>>)
        requires
            old(self).wf(),
        ensures
            final(self).wf(),
            out.deep_view() == framed(old(self).pending() + chunk@).0,
            final(self).pending() == framed(old(self).pending() + chunk@).1,
    {
        let ghost s0 = self.partial@;
        let mut out: Vec<Vec<u8>> = Vec::new();
        let mut i: usize = 0;
        proof {
            lemma_framed_no_delim(s0);
            assert(s0 + chunk@.take(0) =~= s0);
            assert(out.deep_view() =~~= framed(s0 + chunk@.take(0)).0);
        }
        while i < chunk.len()
            invariant
                i <= chunk@.len(),
                out.deep_view() == framed(s0 + chunk@.take(i as int)).0,
                self.partial@ == framed(s0 + chunk@.take(i as int)).1,
            decreases chunk@.len() - i,
        {
            let ghost pre = s0 + chunk@.take(i as int);
            let b = chunk[i];
            proof {
                assert((s0 + chunk@.take(i as int + 1)).drop_last() =~= pre);
                assert((s0 + chunk@.take(i as int + 1)).last() == chunk@[i as int]);
            }
            if b == 0 {
                let mut rec: Vec<u8> = Vec::new();
                core::mem::swap(&mut self.partial, &mut rec);
                out.push(rec);
                assert(out.deep_view() =~~= framed(s0 + chunk@.take(i as int + 1)).0);
            } else {
                self.partial.push(b);
            }
            i += 1;
        }
        proof {
            assert(s0 + chunk@.take(chunk@.len() as int) =~= s0 + chunk@);
            lemma_framed_partial_no_delim(s0 + chunk@);
        }
        out
    }
}

} // verus!
