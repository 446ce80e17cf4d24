//! Requests that were handled lately, so that repeated packets are recognized.
use vstd::prelude::*;

use crate::model::{same_bytes, RequestId, SocketAddr};

verus! {

/// How many requests are remembered.
pub const REQ_DEDUPLICATE_BUF_SIZE: usize = 32;

/// What tells a request from others. Requests of different endpoints never count as one.
pub struct ReqFingerprint {
    pub from: SocketAddr,
    pub session_id: Vec<u8>,
    pub request_id: RequestId,
}

/// Mathematical content of a [`ReqFingerprint`].
#[verifier::ext_equal]
pub struct FingerprintModel {
    pub from: SocketAddr,
    pub session_id: Seq<u8>,
    pub request_id: RequestId,
}

impl View for ReqFingerprint {
    type V = FingerprintModel;

    open spec fn view(&self) -> FingerprintModel {
        FingerprintModel {
            from: self.from,
            session_id: self.session_id@,
            request_id: self.request_id,
        }
    }
}

/// The requests that were handled last, the oldest first.
pub struct RequestHistory {
    requests: Vec<ReqFingerprint>,
}

impl View for RequestHistory {
    type V = Seq<FingerprintModel>;

    closed spec fn view(&self) -> Seq<FingerprintModel> {
        self.requests@.map_values(|f: ReqFingerprint| f@)
    }
}

/// The history after one more request.
pub open spec fn recorded(
    history: Seq<FingerprintModel>,
    request: FingerprintModel,
) -> Seq<FingerprintModel> {
    let all = history.push(request);
    if all.len() > REQ_DEDUPLICATE_BUF_SIZE {
        all.skip(1)
    } else {
        all
    }
}

impl RequestHistory {
    /// No request was handled yet.
    pub fn new() -> (r: RequestHistory)
        ensures
            r@ == Seq::<FingerprintModel>::empty(),
    {
        let r = RequestHistory { requests: Vec::new() };
        assert(r@ =~= Seq::<FingerprintModel>::empty());
        r
    }

    /// Remembers a request. The oldest one is forgotten where there are too many.
    pub fn record_duplicate(&mut self, request: ReqFingerprint)
        requires
            old(self)@.len() <= REQ_DEDUPLICATE_BUF_SIZE,
        ensures
            final(self)@ == recorded(old(self)@, request@),
            final(self)@.len() <= REQ_DEDUPLICATE_BUF_SIZE,
    {
        let ghost before = self@;
        self.requests.push(request);
        assert(self@ =~= before.push(request@));
        if self.requests.len() > REQ_DEDUPLICATE_BUF_SIZE {
            self.requests.remove(0);
            assert(self@ =~= before.push(request@).skip(1));
        }
    }

    /// Whether a request was handled lately.
    pub fn is_request_duplicate(
        &self,
        from: &SocketAddr,
        session_id: &Vec<u8>,
        request_id: RequestId,
    ) -> (r: bool)
        ensures
            r == self@.contains(
                FingerprintModel { from: *from, session_id: session_id@, request_id },
            ),
    {
        let ghost wanted = FingerprintModel { from: *from, session_id: session_id@, request_id };
        let mut i: usize = 0;
        while i < self.requests.len()
            invariant
                0 <= i <= self.requests@.len(),
                wanted == (FingerprintModel { from: *from, session_id: session_id@, request_id }),
                forall|j: int| 0 <= j < i ==> #[trigger] self@[j] != wanted,
            decreases self.requests@.len() - i,
        {
            let known = &self.requests[i];
            assert(self@[i as int] == known@);
            if known.request_id == request_id && known.from == *from && same_bytes(
                &known.session_id,
                session_id,
            ) {
                assert(self@[i as int] =~= wanted);
                return true;
            }
            i += 1;
        }
        false
    }
}

/// A request that was just recorded counts as handled.
pub proof fn lemma_recorded_is_duplicate(history: Seq<FingerprintModel>, request: FingerprintModel)
    ensures
        recorded(history, request).contains(request),
{
    let after = recorded(history, request);
    assert(after[after.len() - 1] == request);
}

/// A request counts as handled until as many others as are remembered came after it.
pub proof fn lemma_remembered_until_pushed_out(
    history: Seq<FingerprintModel>,
    request: FingerprintModel,
    i: int,
    next: FingerprintModel,
)
    requires
        history.len() <= REQ_DEDUPLICATE_BUF_SIZE,
        0 <= i < history.len(),
        history[i] == request,
    ensures
        history.len() < REQ_DEDUPLICATE_BUF_SIZE ==> recorded(history, next)[i] == request,
        history.len() == REQ_DEDUPLICATE_BUF_SIZE && i > 0 ==> recorded(history, next)[i - 1]
            == request,
{
}

} // verus!
