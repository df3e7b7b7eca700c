//! Response body accounting: the payloads of the data frames are
//! appended to one buffer, in arrival order, and the byte count reported
//! is exactly the sum of the payload lengths.

use vstd::prelude::*;

verus! {

/// The concatenation of the data-frame payloads in arrival order.
pub open spec fn concat_chunks(cs: Seq<Seq<u8>>) -> Seq<u8>
    decreases cs.len(),
{
    if cs.len() == 0 {
        Seq::empty()
    } else {
        concat_chunks(cs.drop_last()) + cs.last()
    }
}

/// The sum of the payload lengths.
pub open spec fn sum_lens(cs: Seq<Seq<u8>>) -> int
    decreases cs.len(),
{
    if cs.len() == 0 {
        0
    } else {
        sum_lens(cs.drop_last()) + cs.last().len()
    }
}

/// Size-accounting law: the collected body is exactly as long as the sum
/// of the data-frame payload lengths observed.
pub proof fn lemma_body_size_is_sum(cs: Seq<Seq<u8>>)
    ensures
        concat_chunks(cs).len() == sum_lens(cs),
    decreases cs.len(),
{
    if cs.len() > 0 {
        lemma_body_size_is_sum(cs.drop_last());
    }
}

/// Collects a response body frame by frame. Only data frames are handed
/// in; non-data frames carry no payload and are not accounted.
pub struct BodyCollector {
    bytes: Vec<u8>,
    chunks: Ghost<Seq<Seq<u8>>>,
}

impl BodyCollector {
    /// The payloads seen so far, in arrival order.
    pub closed spec fn chunks_seen(self) -> Seq<Seq<u8>> {
        self.chunks@
    }

    /// The collected body bytes.
    pub closed spec fn body(self) -> Seq<u8> {
        self.bytes@
    }

    /// The buffer always holds exactly the payloads seen, concatenated.
    pub open spec fn wf(self) -> bool {
        self.body() == concat_chunks(self.chunks_seen())
    }

    pub fn new() -> (r: Self)
        ensures
            r.wf(),
            r.chunks_seen() == Seq::<Seq<u8>>::empty(),
            r.body() == Seq::<u8>::empty(),
    {
        BodyCollector { bytes: Vec::new(), chunks: Ghost(Seq::empty()) }
    }

    /// Append one data frame's payload.
    #[verifier::loop_isolation(false)]
    pub fn push_data(&mut self, chunk: &[u8])
        requires
            old(self).wf(),
        ensures
            final(self).wf(),
            final(self).chunks_seen() == old(self).chunks_seen().push(chunk@),
            final(self).body() == old(self).body() + chunk@,
    {
        let n = chunk.len();
        let mut i: usize = 0;
        while i < n
            invariant
                i <= n,
                self.bytes@ =~= old(self).bytes@ + chunk@.take(i as int),
                self.chunks@ == old(self).chunks@,
            decreases n - i,
        {
            let c = chunk[i];
            self.bytes.push(c);
            i = i + 1;
        }
        assert(self.bytes@ =~= old(self).bytes@ + chunk@);
        proof {
            self.chunks@ = self.chunks@.push(chunk@);
            assert(self.chunks@.drop_last() =~= old(self).chunks@);
            assert(self.chunks@.last() == chunk@);
        }
    }

    /// The raw byte count: the sum of the payload lengths seen.
    pub fn size(&self) -> (r: u128)
        requires
            self.wf(),
        ensures
            r == sum_lens(self.chunks_seen()),
            r == self.body().len(),
    {
        proof {
            lemma_body_size_is_sum(self.chunks@);
        }
        self.bytes.len() as u128
    }

    /// Hand the collected bytes out.
    pub fn into_bytes(self) -> (r: Vec<u8>)
        ensures
            r@ == self.body(),
    {
        self.bytes
    }
}

} // verus!
