//! HTTP responses and errors, the client interface, and a client that
//! answers from a table of prepared responses.
use vstd::prelude::*;

use crate::keyed::{
    find_key, keyed_map, lemma_key_index_unique, lemma_keyed_map_at, lemma_keyed_map_push,
    lemma_keyed_map_update, unique_keys,
};
use crate::text::{append_chars, chars_of, concat_str, push_char, string_of};

verus! {

/// A response body.
pub struct HttpResponse {
    pub data: Vec<u8>,
    pub content_length: Option<u64>,
}

/// The contents of a response.
pub struct HttpResponseView {
    pub data: Seq<u8>,
    pub content_length: Option<u64>,
}

impl View for HttpResponse {
    type V = HttpResponseView;

    open spec fn view(&self) -> HttpResponseView {
        HttpResponseView { data: self.data@, content_length: self.content_length }
    }
}

/// Why a request failed.
pub enum HttpClientError {
    /// The server answered with a status that is not a success.
    HttpStatus(u16, String),
    /// The server could not be reached.
    Connection(String),
    Other(String),
}

/// The contents of a request error.
pub enum HttpClientErrorView {
    HttpStatus(u16, Seq<char>),
    Connection(Seq<char>),
    Other(Seq<char>),
}

impl View for HttpClientError {
    type V = HttpClientErrorView;

    open spec fn view(&self) -> HttpClientErrorView {
        match self {
            HttpClientError::HttpStatus(c, m) => HttpClientErrorView::HttpStatus(*c, m@),
            HttpClientError::Connection(m) => HttpClientErrorView::Connection(m@),
            HttpClientError::Other(m) => HttpClientErrorView::Other(m@),
        }
    }
}

/// The decimal digits of `n`.
pub open spec fn decimal(n: nat) -> Seq<char>
    decreases n,
{
    if n < 10 {
        seq![digit_char(n)]
    } else {
        decimal(n / 10).push(digit_char(n % 10))
    }
}

pub open spec fn digit_char(d: nat) -> char {
    if d == 0 {
        '0'
    } else if d == 1 {
        '1'
    } else if d == 2 {
        '2'
    } else if d == 3 {
        '3'
    } else if d == 4 {
        '4'
    } else if d == 5 {
        '5'
    } else if d == 6 {
        '6'
    } else if d == 7 {
        '7'
    } else if d == 8 {
        '8'
    } else {
        '9'
    }
}

fn digit_char_exec(d: u64) -> (c: char)
    requires
        d < 10,
    ensures
        c == digit_char(d as nat),
{
    if d == 0 {
        '0'
    } else if d == 1 {
        '1'
    } else if d == 2 {
        '2'
    } else if d == 3 {
        '3'
    } else if d == 4 {
        '4'
    } else if d == 5 {
        '5'
    } else if d == 6 {
        '6'
    } else if d == 7 {
        '7'
    } else if d == 8 {
        '8'
    } else {
        '9'
    }
}

/// `n` written in decimal.
pub fn decimal_string(n: u64) -> (s: String)
    ensures
        s@ == decimal(n as nat),
    decreases n,
{
    if n < 10 {
        let mut s = String::new();
        push_char(&mut s, digit_char_exec(n));
        assert(s@ =~= seq![digit_char(n as nat)]);
        s
    } else {
        let mut s = decimal_string(n / 10);
        push_char(&mut s, digit_char_exec(n % 10));
        s
    }
}

impl HttpClientError {
    /// The text of the error.
    pub open spec fn message_spec(&self) -> Seq<char> {
        match self {
            HttpClientError::HttpStatus(c, m) => "HTTP "@ + decimal(*c as nat) + ": "@ + m@,
            HttpClientError::Connection(m) => "connection error: "@ + m@,
            HttpClientError::Other(m) => m@,
        }
    }

    /// The text of the error.
    pub fn message(&self) -> (s: String)
        ensures
            s@ == self.message_spec(),
    {
        match self {
            HttpClientError::HttpStatus(c, m) => {
                let mut v = chars_of("HTTP ");
                append_chars(&mut v, &chars_of(decimal_string(*c as u64).as_str()));
                append_chars(&mut v, &chars_of(": "));
                append_chars(&mut v, &chars_of(m.as_str()));
                string_of(&v)
            },
            HttpClientError::Connection(m) => concat_str("connection error: ", m.as_str()),
            HttpClientError::Other(m) => m.clone(),
        }
    }

    /// A copy of the error.
    pub fn duplicate(&self) -> (r: HttpClientError)
        ensures
            r@ == self@,
    {
        match self {
            HttpClientError::HttpStatus(c, m) => HttpClientError::HttpStatus(*c, m.clone()),
            HttpClientError::Connection(m) => HttpClientError::Connection(m.clone()),
            HttpClientError::Other(m) => HttpClientError::Other(m.clone()),
        }
    }
}

impl HttpResponse {
    /// A copy of the response.
    pub fn duplicate(&self) -> (r: HttpResponse)
        ensures
            r@ == self@,
    {
        let mut data: Vec<u8> = Vec::new();
        let mut i: usize = 0;
        while i < self.data.len()
            invariant
                i <= self.data@.len(),
                data@ == self.data@.take(i as int),
            decreases self.data.len() - i,
        {
            data.push(self.data[i]);
            assert(self.data@.take(i + 1) =~= self.data@.take(i as int).push(self.data@[i as int]));
            i += 1;
        }
        assert(self.data@.take(self.data@.len() as int) =~= self.data@);
        HttpResponse { data, content_length: self.content_length }
    }
}

/// The contents of a request's outcome.
pub open spec fn outcome_view(r: Result<HttpResponse, HttpClientError>) -> Result<
    HttpResponseView,
    HttpClientErrorView,
> {
    match r {
        Ok(x) => Ok(x@),
        Err(e) => Err(e@),
    }
}

fn duplicate_outcome(r: &Result<HttpResponse, HttpClientError>) -> (c: Result<
    HttpResponse,
    HttpClientError,
>)
    ensures
        outcome_view(c) == outcome_view(*r),
{
    match r {
        Ok(x) => Ok(x.duplicate()),
        Err(e) => Err(e.duplicate()),
    }
}

/// Fetches a URL.
pub trait HttpClient {
    /// Whether `outcome` is a possible answer of this client for `url`.
    spec fn answers(&self, url: Seq<char>, outcome: Result<HttpResponseView, HttpClientErrorView>) -> bool;

    /// The answer for `url`.
    fn get(&self, url: &str) -> (r: Result<HttpResponse, HttpClientError>)
        ensures
            self.answers(url@, outcome_view(r)),
    ;
}

/// A client that answers each URL with the outcome prepared for it.
pub struct HttpClientMock {
    responses: Vec<(String, Result<HttpResponse, HttpClientError>)>,
}

impl HttpClientMock {
    #[verifier::type_invariant]
    spec fn well_formed(&self) -> bool {
        unique_keys(self.responses@)
    }

    /// The outcome prepared for each URL.
    pub closed spec fn view(&self) -> Map<Seq<char>, Result<HttpResponseView, HttpClientErrorView>> {
        keyed_map(self.responses@).map_values(
            |r: Result<HttpResponse, HttpClientError>| outcome_view(r),
        )
    }

    /// A client with nothing prepared.
    pub fn new() -> (m: HttpClientMock)
        ensures
            m.view() == Map::<Seq<char>, Result<HttpResponseView, HttpClientErrorView>>::empty(),
    {
        let m = HttpClientMock { responses: Vec::new() };
        assert(m.view() =~= Map::<Seq<char>, Result<HttpResponseView, HttpClientErrorView>>::empty());
        m
    }

    /// Prepares the outcome for `url`, replacing one prepared before.
    pub fn expect(&mut self, url: &str, result: Result<HttpResponse, HttpClientError>)
        ensures
            final(self).view() == old(self).view().insert(url@, outcome_view(result)),
    {
        proof {
            use_type_invariant(&*self);
        }
        let ghost before = self.view();
        let ghost old_map = keyed_map(self.responses@);
        let ghost rv = outcome_view(result);
        let mut responses = Vec::new();
        std::mem::swap(&mut responses, &mut self.responses);
        let key = String::from_str(url);
        let ghost r2 = result;
        match find_key(&responses, url) {
            Some(i) => {
                proof {
                    lemma_key_index_unique(responses@, url@);
                    lemma_keyed_map_update(responses@, i as int, key, result);
                }
                responses.set(i, (key, result));
            },
            None => {
                proof {
                    lemma_key_index_unique(responses@, url@);
                    lemma_keyed_map_push(responses@, key, result);
                }
                responses.push((key, result));
            },
        }
        assert(keyed_map(responses@) == old_map.insert(url@, r2));
        self.responses = responses;
        assert(self.view() =~= before.insert(url@, rv));
    }
}

/// The failure for a URL nothing was prepared for.
pub open spec fn unprepared_error(url: Seq<char>) -> HttpClientErrorView {
    HttpClientErrorView::Other("no mock for "@ + url)
}

impl HttpClient for HttpClientMock {
    /// The only answer for a URL is the outcome prepared for it, or a
    /// failure if there is none.
    open spec fn answers(
        &self,
        url: Seq<char>,
        outcome: Result<HttpResponseView, HttpClientErrorView>,
    ) -> bool {
        outcome == if self.view().contains_key(url) {
            self.view()[url]
        } else {
            Err(unprepared_error(url))
        }
    }

    /// The outcome prepared for `url`; a failure if there is none.
    fn get(&self, url: &str) -> (r: Result<HttpResponse, HttpClientError>)
        ensures
            outcome_view(r) == if self.view().contains_key(url@) {
                self.view()[url@]
            } else {
                Err(unprepared_error(url@))
            },
    {
        proof {
            use_type_invariant(self);
        }
        match find_key(&self.responses, url) {
            Some(i) => {
                proof {
                    lemma_keyed_map_at(self.responses@, i as int);
                    lemma_key_index_unique(self.responses@, url@);
                }
                duplicate_outcome(&self.responses[i].1)
            },
            None => {
                proof {
                    lemma_key_index_unique(self.responses@, url@);
                }
                Err(HttpClientError::Other(concat_str("no mock for ", url)))
            },
        }
    }
}

} // verus!
