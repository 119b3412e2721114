//! Requesting URLs.
use vstd::prelude::*;

verus! {

/// How many requests are left after one.
pub open spec fn one_less(left: Option<nat>) -> Option<nat> {
    match left {
        Some(n) => Some((n - 1) as nat),
        None => None,
    }
}

/// An HTTP client: the status code of any response, or why there was none.
pub trait HttpClient: Sized {
    /// How many more requests the client answers; without limit where it does not say.
    open spec fn left(&self) -> Option<nat> {
        None
    }

    /// The client can answer a request in this way and be `after` then; any way and any
    /// state where it does not say.
    open spec fn answers(
        &self,
        url: Seq<char>,
        timeout_ms: u64,
        r: Result<u16, String>,
        after: Self,
    ) -> bool {
        true
    }

    fn get(&mut self, url: &str, timeout_ms: u64) -> (r: Result<u16, String>)
        requires
            old(self).left() != Some(0nat),
        ensures
            old(self).answers(url@, timeout_ms, r, *final(self)),
            final(self).left() == one_less(old(self).left()),
    ;
}

/// Test double: returns a sequence of results, each once.
#[derive(Debug)]
pub struct MockHttpClient {
    pub responses: Vec<Result<u16, String>>,
}

impl MockHttpClient {
    pub fn new(responses: Vec<Result<u16, String>>) -> (r: Self)
        ensures
            r.responses == responses,
    {
        MockHttpClient { responses }
    }

    /// Sixteen responses with a status.
    pub fn always_ok(status: u16) -> (r: Self)
        ensures
            r.responses@.len() == 16,
            forall|i: int| 0 <= i < 16 ==> #[trigger] r.responses@[i] == Ok::<u16, String>(status),
    {
        let mut responses: Vec<Result<u16, String>> = Vec::new();
        let mut i: usize = 0;
        while i < 16
            invariant
                i <= 16,
                responses@.len() == i,
                forall|k: int|
                    0 <= k < i ==> #[trigger] responses@[k] == Ok::<u16, String>(status),
            decreases 16 - i,
        {
            responses.push(Ok(status));
            i += 1;
        }
        MockHttpClient::new(responses)
    }

    /// Sixteen failures with a message.
    pub fn always_err(msg: &str) -> (r: Self)
        ensures
            r.responses@.len() == 16,
            forall|i: int|
                0 <= i < 16 ==> (#[trigger] r.responses@[i] matches Err(e) && e@ == msg@),
    {
        let mut responses: Vec<Result<u16, String>> = Vec::new();
        let mut i: usize = 0;
        while i < 16
            invariant
                i <= 16,
                responses@.len() == i,
                forall|k: int| 0 <= k < i ==> (#[trigger] responses@[k] matches Err(e) && e@ == msg@),
            decreases 16 - i,
        {
            responses.push(Err(msg.to_string()));
            i += 1;
        }
        MockHttpClient::new(responses)
    }
}

impl HttpClient for MockHttpClient {
    open spec fn left(&self) -> Option<nat> {
        Some(self.responses@.len())
    }

    open spec fn answers(
        &self,
        url: Seq<char>,
        timeout_ms: u64,
        r: Result<u16, String>,
        after: Self,
    ) -> bool {
        self.responses@.len() > 0 && r == self.responses@[0] && after.responses@
            == self.responses@.remove(0)
    }

    fn get(&mut self, url: &str, timeout_ms: u64) -> (r: Result<u16, String>)
        ensures
            r == old(self).responses@[0],
            final(self).responses@ == old(self).responses@.remove(0),
    {
        self.responses.remove(0)
    }
}

} // verus!
