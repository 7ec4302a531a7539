//! The context bag: what the stages of one call share. It is made for the
//! call and dropped with it.
//!
//! The bag has one named place for each concern that crosses stages: the
//! trace span, the cache directive, the head of the chain that symbolic block
//! tags resolve to, and the headers of the inbound connection.

use vstd::prelude::*;

verus! {

/// A context bag as plain values.
pub struct ContextView {
    pub trace_span: Option<Seq<char>>,
    pub bypass_cache: bool,
    pub chain_head: Option<Seq<char>>,
    pub headers: Seq<(Seq<char>, Seq<char>)>,
}

/// The headers of a list, name and value, as sequences of characters.
pub open spec fn header_texts(headers: Seq<(String, String)>) -> Seq<(Seq<char>, Seq<char>)> {
    headers.map_values(|header: (String, String)| (header.0@, header.1@))
}

/// The value of the first header named `name`, if there is one.
pub open spec fn header_value(headers: Seq<(Seq<char>, Seq<char>)>, name: Seq<char>) -> Option<
    Seq<char>,
>
    decreases headers.len(),
{
    if headers.len() == 0 {
        None
    } else if headers[0].0 == name {
        Some(headers[0].1)
    } else {
        header_value(headers.skip(1), name)
    }
}

/// The text of an optional string.
pub open spec fn optional_text(value: Option<String>) -> Option<Seq<char>> {
    match value {
        Some(text) => Some(text@),
        None => None,
    }
}

/// A copy of an optional string.
pub fn clone_optional(value: &Option<String>) -> (copy: Option<String>)
    ensures
        optional_text(copy) == optional_text(*value),
{
    match value {
        Some(text) => Some(text.clone()),
        None => None,
    }
}

/// A copy of a list of headers.
pub fn clone_headers(headers: &Vec<(String, String)>) -> (copy: Vec<(String, String)>)
    ensures
        header_texts(copy@) == header_texts(headers@),
{
    let mut copy: Vec<(String, String)> = Vec::new();
    let mut i: usize = 0;
    while i < headers.len()
        invariant
            i <= headers@.len(),
            copy@.len() == i,
            forall|j: int|
                0 <= j < i ==> copy@[j].0@ == headers@[j].0@ && copy@[j].1@ == headers@[j].1@,
        decreases headers@.len() - i,
    {
        copy.push((headers[i].0.clone(), headers[i].1.clone()));
        i += 1;
    }
    assert(header_texts(copy@) =~= header_texts(headers@));
    copy
}

/// The shared state of one call.
#[derive(Debug)]
pub struct ContextBag {
    trace_span: Option<String>,
    bypass_cache: bool,
    chain_head: Option<String>,
    headers: Vec<(String, String)>,
}

impl View for ContextBag {
    type V = ContextView;

    closed spec fn view(&self) -> ContextView {
        ContextView {
            trace_span: optional_text(self.trace_span),
            bypass_cache: self.bypass_cache,
            chain_head: optional_text(self.chain_head),
            headers: header_texts(self.headers@),
        }
    }
}

impl ContextBag {
    /// A fresh bag: no span, no directive, no head, no headers.
    pub fn new() -> (bag: ContextBag)
        ensures
            bag@ == (ContextView {
                trace_span: None,
                bypass_cache: false,
                chain_head: None,
                headers: Seq::empty(),
            }),
    {
        let bag = ContextBag {
            trace_span: None,
            bypass_cache: false,
            chain_head: None,
            headers: Vec::new(),
        };
        assert(header_texts(bag.headers@) =~= Seq::empty());
        bag
    }

    /// The span that the call is attributed to.
    pub fn trace_span(&self) -> (span: Option<String>)
        ensures
            optional_text(span) == self@.trace_span,
    {
        clone_optional(&self.trace_span)
    }

    /// Attributes what follows in the call to `span`.
    pub fn set_trace_span(&mut self, span: String)
        ensures
            final(self)@ == (ContextView { trace_span: Some(span@), ..old(self)@ }),
    {
        self.trace_span = Some(span);
    }

    /// Whether the cache is to be left out for this call.
    pub fn bypass_cache(&self) -> (bypass: bool)
        ensures
            bypass == self@.bypass_cache,
    {
        self.bypass_cache
    }

    /// Says whether the cache is to be left out for this call.
    pub fn set_bypass_cache(&mut self, bypass: bool)
        ensures
            final(self)@ == (ContextView { bypass_cache: bypass, ..old(self)@ }),
    {
        self.bypass_cache = bypass;
    }

    /// The block that symbolic tags resolve to.
    pub fn chain_head(&self) -> (head: Option<String>)
        ensures
            optional_text(head) == self@.chain_head,
    {
        clone_optional(&self.chain_head)
    }

    /// Sets the block that symbolic tags resolve to.
    pub fn set_chain_head(&mut self, head: String)
        ensures
            final(self)@ == (ContextView { chain_head: Some(head@), ..old(self)@ }),
    {
        self.chain_head = Some(head);
    }

    /// Puts the headers of the inbound connection into the bag, in place of
    /// those that were there.
    pub fn set_headers(&mut self, headers: Vec<(String, String)>)
        ensures
            final(self)@ == (ContextView { headers: header_texts(headers@), ..old(self)@ }),
    {
        self.headers = headers;
    }

    /// The value of the first header named `name`.
    pub fn header(&self, name: &String) -> (value: Option<String>)
        ensures
            optional_text(value) == header_value(self@.headers, name@),
    {
        let mut i: usize = 0;
        assert(self@.headers.skip(0) =~= self@.headers);
        while i < self.headers.len()
            invariant
                i <= self.headers@.len(),
                header_value(self@.headers, name@) == header_value(
                    self@.headers.skip(i as int),
                    name@,
                ),
            decreases self.headers@.len() - i,
        {
            let ghost rest = self@.headers.skip(i as int);
            assert(rest[0] == (self.headers@[i as int].0@, self.headers@[i as int].1@));
            assert(rest.skip(1) =~= self@.headers.skip(i + 1));
            if self.headers[i].0 == *name {
                return Some(self.headers[i].1.clone());
            }
            i += 1;
        }
        None
    }
}

} // verus!
