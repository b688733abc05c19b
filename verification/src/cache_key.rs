//! The identity under which a response is stored.
//!
//! A key is made of the request's method, its URL without the fragment, and
//! the values that the request has for the fields that the stored response
//! names as selecting (`Vary`). It does not change once it is built.

use crate::headers::{field, Fields};
use crate::message::{texts, Method, Request, RequestModel};
use crate::text::{chars_of, find_char, find_from, same_text};
use vstd::prelude::*;
use vstd::string::*;

verus! {

/// A selecting field: its name and the value that the request had for it, if
/// it had one.
pub type Selector = (Seq<char>, Option<Seq<char>>);

/// A key, as a value.
pub struct KeyModel {
    pub method: Method,
    pub url: Seq<char>,
    pub vary: Seq<Selector>,
}

/// `url` without its fragment: what stands before the first `#`.
pub open spec fn normalized(url: Seq<char>) -> Seq<char> {
    url.take(find_from(url, '#', 0))
}

/// The values that `headers` has for `names`, in the order of `names`.
pub open spec fn selectors(headers: Fields, names: Seq<Seq<char>>) -> Seq<Selector> {
    Seq::new(names.len(), |i: int| (names[i], field(headers, names[i])))
}

/// The key of `request` where `names` are the selecting fields.
pub open spec fn key_of(request: RequestModel, names: Seq<Seq<char>>) -> KeyModel {
    KeyModel {
        method: request.method,
        url: normalized(request.url),
        vary: selectors(request.headers, names),
    }
}

impl KeyModel {
    /// The names of the selecting fields.
    pub open spec fn names(self) -> Seq<Seq<char>> {
        Seq::new(self.vary.len(), |i: int| self.vary[i].0)
    }

    /// Whether `request` has this key: the same method, the same URL but for
    /// the fragment, and for each selecting field the same value, or none
    /// where the key has none.
    pub open spec fn matches(self, request: RequestModel) -> bool {
        self == key_of(request, self.names())
    }
}

/// A key built from a request matches that request.
pub proof fn lemma_key_matches_its_request(request: RequestModel, names: Seq<Seq<char>>)
    ensures
        key_of(request, names).matches(request),
{
    let key = key_of(request, names);
    assert(key.names() =~= names);
}

/// Two requests have the same key under `names` if and only if they agree on
/// the method, on the URL but for the fragment, and on each of the fields.
pub proof fn lemma_same_key(a: RequestModel, b: RequestModel, names: Seq<Seq<char>>)
    ensures
        key_of(a, names) == key_of(b, names) <==> {
            &&& a.method == b.method
            &&& normalized(a.url) == normalized(b.url)
            &&& forall|i: int|
                0 <= i < names.len() ==> field(a.headers, #[trigger] names[i]) == field(
                    b.headers,
                    names[i],
                )
        },
{
    let ka = key_of(a, names);
    let kb = key_of(b, names);
    if ka == kb {
        assert forall|i: int| 0 <= i < names.len() implies field(a.headers, #[trigger] names[i])
            == field(b.headers, names[i]) by {
            assert(ka.vary[i] == kb.vary[i]);
        }
    }
    if a.method == b.method && normalized(a.url) == normalized(b.url) && (forall|i: int|
        0 <= i < names.len() ==> field(a.headers, #[trigger] names[i]) == field(
            b.headers,
            names[i],
        )) {
        assert(ka.vary =~= kb.vary);
    }
}

/// The text of `value`, if there is one.
pub open spec fn opt_text(value: Option<String>) -> Option<Seq<char>> {
    match value {
        Some(s) => Some(s@),
        None => None,
    }
}

/// The selecting fields that `list` holds.
pub open spec fn selectors_of(list: Seq<(String, Option<String>)>) -> Seq<Selector> {
    Seq::new(list.len(), |i: int| (list[i].0@, opt_text(list[i].1)))
}

/// `url` without its fragment.
pub fn normalize(url: &str) -> (r: String)
    ensures
        r@ == normalized(url@),
{
    let chars = chars_of(url);
    let n: usize = chars.len();
    let k = find_char(&chars, '#', 0, n);
    proof {
        assert(chars@.take(n as int) =~= chars@);
        assert(url@.subrange(0, k as int) =~= url@.take(k as int));
    }
    url.substring_char(0, k).to_owned()
}

/// The identity under which a response is stored.
pub struct CacheKey {
    method: Method,
    url: String,
    vary: Vec<(String, Option<String>)>,
}

impl View for CacheKey {
    type V = KeyModel;

    closed spec fn view(&self) -> KeyModel {
        KeyModel { method: self.method, url: self.url@, vary: selectors_of(self.vary@) }
    }
}

impl CacheKey {
    /// The key of `request` where `names` are the selecting fields.
    pub fn new(request: &Request, names: &Vec<String>) -> (r: CacheKey)
        ensures
            r@ == key_of(request@, texts(names@)),
    {
        let mut vary: Vec<(String, Option<String>)> = Vec::new();
        let mut i: usize = 0;
        while i < names.len()
            invariant
                i <= names.len(),
                vary.len() == i,
                forall|j: int|
                    0 <= j < i ==> (#[trigger] vary@[j]).0@ == names@[j]@ && opt_text(vary@[j].1)
                        == field(request.headers@, names@[j]@),
            decreases names.len() - i,
        {
            let value = match request.headers.get(names[i].as_str()) {
                Some(v) => Some(v.to_owned()),
                None => None,
            };
            vary.push((names[i].clone(), value));
            i += 1;
        }
        let r = CacheKey { method: request.method, url: normalize(request.url.as_str()), vary };
        assert(r@.vary =~= selectors(request.headers@, texts(names@)));
        r
    }

    /// The method of the request.
    pub fn method(&self) -> (r: Method)
        ensures
            r == self@.method,
    {
        self.method
    }

    /// The URL of the request, without its fragment.
    pub fn url(&self) -> (r: &str)
        ensures
            r@ == self@.url,
    {
        self.url.as_str()
    }

    /// The names of the selecting fields.
    pub fn names(&self) -> (r: Vec<String>)
        ensures
            texts(r@) == self@.names(),
    {
        let mut r: Vec<String> = Vec::new();
        let mut i: usize = 0;
        while i < self.vary.len()
            invariant
                i <= self.vary.len(),
                r.len() == i,
                forall|j: int| 0 <= j < i ==> (#[trigger] r@[j])@ == self.vary@[j].0@,
            decreases self.vary.len() - i,
        {
            r.push(self.vary[i].0.clone());
            i += 1;
        }
        assert(texts(r@) =~= self@.names());
        r
    }

    /// Whether `request` has this key.
    pub fn matches(&self, request: &Request) -> (r: bool)
        ensures
            r == self@.matches(request@),
    {
        let ghost want = key_of(request@, self@.names());
        if self.method != request.method {
            return false;
        }
        let url = normalize(request.url.as_str());
        if !same_text(self.url.as_str(), url.as_str()) {
            return false;
        }
        let mut i: usize = 0;
        while i < self.vary.len()
            invariant
                i <= self.vary.len(),
                want == key_of(request@, self@.names()),
                forall|j: int| 0 <= j < i ==> (#[trigger] self@.vary[j]) == want.vary[j],
            decreases self.vary.len() - i,
        {
            let found = request.headers.get(self.vary[i].0.as_str());
            let same = match (&self.vary[i].1, found) {
                (Some(a), Some(b)) => same_text(a.as_str(), b),
                (None, None) => true,
                _ => false,
            };
            if !same {
                assert(self@.vary[i as int] != want.vary[i as int]);
                return false;
            }
            i += 1;
        }
        assert(self@.vary =~= want.vary);
        true
    }

    /// Whether `other` is the same key.
    pub fn same(&self, other: &CacheKey) -> (r: bool)
        ensures
            r == (self@ == other@),
    {
        if self.method != other.method {
            return false;
        }
        if !same_text(self.url.as_str(), other.url.as_str()) {
            return false;
        }
        if self.vary.len() != other.vary.len() {
            assert(self@.vary.len() != other@.vary.len());
            return false;
        }
        let mut i: usize = 0;
        while i < self.vary.len()
            invariant
                i <= self.vary.len(),
                self.vary.len() == other.vary.len(),
                forall|j: int| 0 <= j < i ==> (#[trigger] self@.vary[j]) == other@.vary[j],
            decreases self.vary.len() - i,
        {
            if !same_text(self.vary[i].0.as_str(), other.vary[i].0.as_str()) {
                assert(self@.vary[i as int] != other@.vary[i as int]);
                return false;
            }
            let same = match (&self.vary[i].1, &other.vary[i].1) {
                (Some(a), Some(b)) => same_text(a.as_str(), b.as_str()),
                (None, None) => true,
                _ => false,
            };
            if !same {
                assert(self@.vary[i as int] != other@.vary[i as int]);
                return false;
            }
            i += 1;
        }
        assert(self@.vary =~= other@.vary);
        true
    }
}

impl Clone for CacheKey {
    fn clone(&self) -> (r: CacheKey)
        ensures
            r@ == self@,
    {
        let mut vary: Vec<(String, Option<String>)> = Vec::new();
        let mut i: usize = 0;
        while i < self.vary.len()
            invariant
                i <= self.vary.len(),
                vary.len() == i,
                forall|j: int|
                    0 <= j < i ==> (#[trigger] vary@[j]).0@ == self.vary@[j].0@ && opt_text(
                        vary@[j].1,
                    ) == opt_text(self.vary@[j].1),
            decreases self.vary.len() - i,
        {
            let value = match &self.vary[i].1 {
                Some(v) => Some(v.clone()),
                None => None,
            };
            vary.push((self.vary[i].0.clone(), value));
            i += 1;
        }
        let r = CacheKey { method: self.method, url: self.url.clone(), vary };
        assert(r@.vary =~= self@.vary);
        r
    }
}

} // verus!
