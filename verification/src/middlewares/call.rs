//! A call as the chain sees it.

use vstd::prelude::*;
use crate::client::subscription::texts;
use crate::error::GatewayError;

verus! {

/// One inbound call: the method and its parameters, each a serialised value.
#[derive(Debug, Clone, PartialEq, Eq)]
pub struct CallRequest {
    pub method: String,
    pub params: Vec<String>,
}

/// A call with its texts as sequences of characters.
pub struct RequestView {
    pub method: Seq<char>,
    pub params: Seq<Seq<char>>,
}

impl View for CallRequest {
    type V = RequestView;

    open spec fn view(&self) -> RequestView {
        RequestView { method: self.method@, params: texts(self.params@) }
    }
}

/// A copy of a list of texts.
pub fn clone_texts(values: &Vec<String>) -> (copy: Vec<String>)
    ensures
        texts(copy@) == texts(values@),
{
    let mut copy: Vec<String> = Vec::new();
    let mut i: usize = 0;
    while i < values.len()
        invariant
            i <= values@.len(),
            copy@.len() == i,
            forall|j: int| 0 <= j < i ==> copy@[j]@ == values@[j]@,
        decreases values@.len() - i,
    {
        copy.push(values[i].clone());
        i += 1;
    }
    assert(texts(copy@) =~= texts(values@));
    copy
}

/// Whether two lists hold the same texts in the same order.
pub fn same_texts(left: &Vec<String>, right: &Vec<String>) -> (same: bool)
    ensures
        same == (texts(left@) == texts(right@)),
{
    if left.len() != right.len() {
        assert(texts(left@).len() != texts(right@).len());
        return false;
    }
    let mut i: usize = 0;
    while i < left.len()
        invariant
            i <= left@.len(),
            left@.len() == right@.len(),
            forall|j: int| 0 <= j < i ==> left@[j]@ == right@[j]@,
        decreases left@.len() - i,
    {
        if left[i] != right[i] {
            assert(texts(left@)[i as int] != texts(right@)[i as int]);
            return false;
        }
        i += 1;
    }
    assert(texts(left@) =~= texts(right@));
    true
}

impl CallRequest {
    /// A call of `method` with `params`.
    pub fn new(method: String, params: Vec<String>) -> (request: CallRequest)
        ensures
            request.method == method,
            request.params == params,
    {
        CallRequest { method, params }
    }

    /// A copy of the call.
    pub fn duplicate(&self) -> (copy: CallRequest)
        ensures
            copy@ == self@,
    {
        CallRequest { method: self.method.clone(), params: clone_texts(&self.params) }
    }

    /// Whether the two calls are of the same method with the same parameters.
    pub fn same_as(&self, other: &CallRequest) -> (same: bool)
        ensures
            same == (self@ == other@),
    {
        self.method == other.method && same_texts(&self.params, &other.params)
    }
}

/// A copy of a result.
pub fn clone_result(result: &Result<String, GatewayError>) -> (copy: Result<String, GatewayError>)
    ensures
        crate::error::result_view(copy) == crate::error::result_view(*result),
{
    match result {
        Ok(value) => Ok(value.clone()),
        Err(GatewayError::Transport) => Err(GatewayError::Transport),
        Err(GatewayError::Protocol) => Err(GatewayError::Protocol),
        Err(GatewayError::Remote(message)) => Err(GatewayError::Remote(message.clone())),
        Err(GatewayError::Validation(rejection)) => Err(GatewayError::Validation(*rejection)),
        Err(GatewayError::Config(message)) => Err(GatewayError::Config(message.clone())),
        Err(GatewayError::Exhausted) => Err(GatewayError::Exhausted),
    }
}

} // verus!
