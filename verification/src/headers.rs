//! Header fields of a request or a response.
//!
//! A field's name is compared as it is given: the layer that parses messages
//! hands names in lower case.

use crate::text::same_text;
use vstd::prelude::*;
use vstd::string::*;

verus! {

/// Header fields as a map from name to value.
pub type Fields = Map<Seq<char>, Seq<char>>;

/// The value of `name` among `fields`, if it is there.
pub open spec fn field(fields: Fields, name: Seq<char>) -> Option<Seq<char>> {
    if fields.contains_key(name) {
        Some(fields[name])
    } else {
        None
    }
}

/// Whether a field belongs to one connection or frames one message, so that
/// it is never carried over when a stored response is brought up to date.
pub open spec fn is_excluded(name: Seq<char>) -> bool {
    ||| name == "connection"@
    ||| name == "keep-alive"@
    ||| name == "proxy-authenticate"@
    ||| name == "proxy-authorization"@
    ||| name == "te"@
    ||| name == "trailer"@
    ||| name == "transfer-encoding"@
    ||| name == "upgrade"@
    ||| name == "content-length"@
}

/// The fields of a stored response after a revalidation: each field of
/// `update` replaces the stored one of that name, the other stored fields
/// stay, and no excluded field is taken from either.
pub open spec fn merge_fields(stored: Fields, update: Fields) -> Fields {
    Map::new(
        |name: Seq<char>|
            !is_excluded(name) && (stored.contains_key(name) || update.contains_key(name)),
        |name: Seq<char>|
            if update.contains_key(name) {
                update[name]
            } else {
                stored[name]
            },
    )
}

/// No name occurs twice among `list`.
pub open spec fn distinct_names(list: Seq<(String, String)>) -> bool {
    forall|i: int, j: int|
        0 <= i < list.len() && 0 <= j < list.len() && i != j ==> (#[trigger] list[i]).0@ != (
        #[trigger] list[j]).0@
}

/// Where `name` stands in `list`.
pub open spec fn position(list: Seq<(String, String)>, name: Seq<char>) -> int {
    choose|i: int| 0 <= i < list.len() && (#[trigger] list[i]).0@ == name
}

/// The fields that `list` holds.
pub open spec fn fields_of(list: Seq<(String, String)>) -> Fields {
    Map::new(
        |name: Seq<char>| exists|i: int| 0 <= i < list.len() && (#[trigger] list[i]).0@ == name,
        |name: Seq<char>| list[position(list, name)].1@,
    )
}

/// With distinct names, each place of `list` is one field of the map.
pub proof fn lemma_fields_of(list: Seq<(String, String)>, i: int)
    requires
        distinct_names(list),
        0 <= i < list.len(),
    ensures
        fields_of(list).contains_key(list[i].0@),
        fields_of(list)[list[i].0@] == list[i].1@,
{
    let name = list[i].0@;
    assert(list[position(list, name)].0@ == name);
}

/// Whether `name` is excluded from a merge.
pub fn excluded(name: &str) -> (r: bool)
    ensures
        r == is_excluded(name@),
{
    same_text(name, "connection") || same_text(name, "keep-alive") || same_text(
        name,
        "proxy-authenticate",
    ) || same_text(name, "proxy-authorization") || same_text(name, "te") || same_text(
        name,
        "trailer",
    ) || same_text(name, "transfer-encoding") || same_text(name, "upgrade") || same_text(
        name,
        "content-length",
    )
}

/// The header fields of a message: at most one value for each name.
pub struct HeaderMap {
    list: Vec<(String, String)>,
}

impl View for HeaderMap {
    type V = Fields;

    closed spec fn view(&self) -> Fields {
        fields_of(self.list@)
    }
}

impl HeaderMap {
    #[verifier::type_invariant]
    spec fn well_formed(self) -> bool {
        distinct_names(self.list@)
    }

    /// No fields.
    pub fn new() -> (r: HeaderMap)
        ensures
            r@ == Fields::empty(),
    {
        let r = HeaderMap { list: Vec::new() };
        assert(r@ =~= Fields::empty());
        r
    }

    /// Where `name` stands, or the number of fields if it is not there.
    fn find(&self, name: &str) -> (k: usize)
        ensures
            k <= self.list.len(),
            k < self.list.len() ==> self.list@[k as int].0@ == name@,
            k == self.list.len() ==> !self@.contains_key(name@),
    {
        let mut k: usize = 0;
        while k < self.list.len()
            invariant
                k <= self.list.len(),
                forall|j: int| 0 <= j < k ==> (#[trigger] self.list@[j]).0@ != name@,
            decreases self.list.len() - k,
        {
            if same_text(self.list[k].0.as_str(), name) {
                return k;
            }
            k += 1;
        }
        k
    }

    /// The number of fields.
    pub fn len(&self) -> (n: usize)
        ensures
            n == self@.dom().len(),
            self@.dom().finite(),
    {
        proof {
            use_type_invariant(self);
            lemma_domain_size(self.list@);
        }
        self.list.len()
    }

    /// Whether a field of that name is there.
    pub fn contains_key(&self, name: &str) -> (r: bool)
        ensures
            r == self@.contains_key(name@),
    {
        let k = self.find(name);
        k < self.list.len()
    }

    /// The value of `name`, if it is there.
    pub fn get(&self, name: &str) -> (r: Option<&str>)
        ensures
            match r {
                Some(v) => field(self@, name@) == Some(v@),
                None => field(self@, name@) is None,
            },
    {
        let k = self.find(name);
        if k < self.list.len() {
            proof {
                use_type_invariant(self);
                lemma_fields_of(self.list@, k as int);
            }
            Some(self.list[k].1.as_str())
        } else {
            None
        }
    }

    /// Sets the value of `name`, replacing the one it had.
    pub fn insert(&mut self, name: &str, value: &str)
        ensures
            final(self)@ == old(self)@.insert(name@, value@),
    {
        proof {
            use_type_invariant(&*self);
        }
        let k = self.find(name);
        let ghost before = self.list@;
        let item = (name.to_owned(), value.to_owned());
        let mut list: Vec<(String, String)> = Vec::new();
        std::mem::swap(&mut list, &mut self.list);
        if k < list.len() {
            list.set(k, item);
        } else {
            list.push(item);
        }
        proof {
            let after = list@;
            let spot = k as int;
            assert(after[spot].0@ == name@ && after[spot].1@ == value@);
            assert forall|j: int| 0 <= j < after.len() && j != spot implies after[j]
                == before[j] && (#[trigger] after[j]).0@ != name@ by {
                if spot < before.len() {
                    assert(before[j].0@ != before[spot].0@);
                } else {
                    assert(!fields_of(before).contains_key(name@));
                }
            }
            assert(distinct_names(after));
            assert forall|n: Seq<char>| #[trigger]
                fields_of(after).contains_key(n) == fields_of(before).insert(
                    name@,
                    value@,
                ).contains_key(n) by {
                if fields_of(after).contains_key(n) {
                    let j = choose|j: int| 0 <= j < after.len() && (#[trigger] after[j]).0@ == n;
                    if j != spot {
                        assert(before[j].0@ == n);
                    }
                }
                if fields_of(before).contains_key(n) && n != name@ {
                    let j = choose|j: int| 0 <= j < before.len() && (#[trigger] before[j]).0@ == n;
                    assert(after[j].0@ == n);
                }
            }
            assert forall|n: Seq<char>| #[trigger]
                fields_of(after).contains_key(n) implies fields_of(after)[n] == fields_of(
                before,
            ).insert(name@, value@)[n] by {
                let j = choose|j: int| 0 <= j < after.len() && (#[trigger] after[j]).0@ == n;
                lemma_fields_of(after, j);
                if j != spot {
                    lemma_fields_of(before, j);
                }
            }
            assert(fields_of(after) =~= fields_of(before).insert(name@, value@));
        }
        self.list = list;
    }

    /// The fields as a list of names and values, each name once.
    pub fn to_vec(&self) -> (r: Vec<(String, String)>)
        ensures
            distinct_names(r@),
            fields_of(r@) == self@,
    {
        proof {
            use_type_invariant(self);
        }
        let mut r: Vec<(String, String)> = Vec::new();
        let mut i: usize = 0;
        while i < self.list.len()
            invariant
                i <= self.list.len(),
                r.len() == i,
                forall|j: int|
                    0 <= j < i ==> (#[trigger] r@[j]).0@ == self.list@[j].0@ && r@[j].1@
                        == self.list@[j].1@,
            decreases self.list.len() - i,
        {
            r.push((self.list[i].0.clone(), self.list[i].1.clone()));
            i += 1;
        }
        proof {
            lemma_same_fields(self.list@, r@);
        }
        r
    }

    /// A copy of these fields brought up to date with those of a revalidation.
    pub fn merged(&self, update: &HeaderMap) -> (r: HeaderMap)
        ensures
            r@ == merge_fields(self@, update@),
    {
        proof {
            use_type_invariant(self);
            use_type_invariant(update);
        }
        let mut r = HeaderMap::new();
        let mut i: usize = 0;
        while i < self.list.len()
            invariant
                i <= self.list.len(),
                distinct_names(self.list@),
                r@ == merge_fields(fields_of(self.list@.take(i as int)), Fields::empty()),
            decreases self.list.len() - i,
        {
            let ghost longer = self.list@.take(i + 1);
            let name = self.list[i].0.as_str();
            if !excluded(name) {
                r.insert(name, self.list[i].1.as_str());
            }
            proof {
                lemma_take_one_more(self.list@, i as int);
                assert(r@ =~= merge_fields(fields_of(longer), Fields::empty()));
            }
            i += 1;
        }
        assert(self.list@.take(self.list.len() as int) =~= self.list@);
        let ghost stored = self@;
        let mut j: usize = 0;
        while j < update.list.len()
            invariant
                j <= update.list.len(),
                distinct_names(update.list@),
                stored == self@,
                r@ == merge_fields(stored, fields_of(update.list@.take(j as int))),
            decreases update.list.len() - j,
        {
            let ghost longer = update.list@.take(j + 1);
            let name = update.list[j].0.as_str();
            if !excluded(name) {
                r.insert(name, update.list[j].1.as_str());
            }
            proof {
                lemma_take_one_more(update.list@, j as int);
                assert(r@ =~= merge_fields(stored, fields_of(longer)));
            }
            j += 1;
        }
        assert(update.list@.take(update.list.len() as int) =~= update.list@);
        r
    }
}

impl Clone for HeaderMap {
    fn clone(&self) -> (r: HeaderMap)
        ensures
            r@ == self@,
    {
        HeaderMap { list: self.to_vec() }
    }
}

impl Default for HeaderMap {
    fn default() -> (r: HeaderMap)
        ensures
            r@ == Fields::empty(),
    {
        HeaderMap::new()
    }
}

/// Lists that agree place by place on names and values hold the same fields.
pub proof fn lemma_same_fields(a: Seq<(String, String)>, b: Seq<(String, String)>)
    requires
        distinct_names(a),
        a.len() == b.len(),
        forall|j: int|
            0 <= j < a.len() ==> (#[trigger] b[j]).0@ == a[j].0@ && b[j].1@ == a[j].1@,
    ensures
        distinct_names(b),
        fields_of(b) == fields_of(a),
{
    assert forall|i: int, j: int|
        0 <= i < b.len() && 0 <= j < b.len() && i != j implies (#[trigger] b[i]).0@ != (
    #[trigger] b[j]).0@ by {
        assert(a[i].0@ != a[j].0@);
    }
    assert forall|n: Seq<char>| #[trigger]
        fields_of(a).contains_key(n) == fields_of(b).contains_key(n) by {
        if fields_of(a).contains_key(n) {
            let j = choose|j: int| 0 <= j < a.len() && (#[trigger] a[j]).0@ == n;
            assert(b[j].0@ == n);
        }
        if fields_of(b).contains_key(n) {
            let j = choose|j: int| 0 <= j < b.len() && (#[trigger] b[j]).0@ == n;
            assert(a[j].0@ == n);
        }
    }
    assert forall|n: Seq<char>| #[trigger] fields_of(a).contains_key(n) implies fields_of(a)[n]
        == fields_of(b)[n] by {
        let j = choose|j: int| 0 <= j < a.len() && (#[trigger] a[j]).0@ == n;
        assert(b[j].0@ == n);
        lemma_fields_of(a, j);
        lemma_fields_of(b, j);
    }
    assert(fields_of(b) =~= fields_of(a));
}

/// One more place of a list with distinct names is one more field.
pub proof fn lemma_take_one_more(list: Seq<(String, String)>, i: int)
    requires
        distinct_names(list),
        0 <= i < list.len(),
    ensures
        !fields_of(list.take(i)).contains_key(list[i].0@),
        fields_of(list.take(i + 1)) == fields_of(list.take(i)).insert(list[i].0@, list[i].1@),
{
    let short = list.take(i);
    let long = list.take(i + 1);
    assert(distinct_names(short));
    assert(distinct_names(long));
    if fields_of(short).contains_key(list[i].0@) {
        let j = choose|j: int| 0 <= j < short.len() && (#[trigger] short[j]).0@ == list[i].0@;
        assert(list[j].0@ != list[i].0@);
    }
    assert forall|n: Seq<char>| #[trigger]
        fields_of(long).contains_key(n) == fields_of(short).insert(
            list[i].0@,
            list[i].1@,
        ).contains_key(n) by {
        if fields_of(long).contains_key(n) {
            let j = choose|j: int| 0 <= j < long.len() && (#[trigger] long[j]).0@ == n;
            if j < i {
                assert(short[j].0@ == n);
            }
        }
        if fields_of(short).contains_key(n) {
            let j = choose|j: int| 0 <= j < short.len() && (#[trigger] short[j]).0@ == n;
            assert(long[j].0@ == n);
        }
        if n == list[i].0@ {
            assert(long[i].0@ == n);
        }
    }
    assert forall|n: Seq<char>| #[trigger] fields_of(long).contains_key(n) implies fields_of(
        long,
    )[n] == fields_of(short).insert(list[i].0@, list[i].1@)[n] by {
        let j = choose|j: int| 0 <= j < long.len() && (#[trigger] long[j]).0@ == n;
        lemma_fields_of(long, j);
        if j < i {
            assert(short[j].0@ == n);
            lemma_fields_of(short, j);
        } else {
            assert(long[i] == list[i]);
        }
    }
    assert(fields_of(long) =~= fields_of(short).insert(list[i].0@, list[i].1@));
}

/// A list with distinct names holds as many fields as it has places.
pub proof fn lemma_domain_size(list: Seq<(String, String)>)
    requires
        distinct_names(list),
    ensures
        fields_of(list).dom().finite(),
        fields_of(list).dom().len() == list.len(),
    decreases list.len(),
{
    if list.len() == 0 {
        assert(fields_of(list).dom() =~= Set::empty());
    } else {
        let i = list.len() - 1;
        let short = list.take(i);
        assert(distinct_names(short));
        lemma_domain_size(short);
        lemma_take_one_more(list, i);
        assert(list.take(i + 1) =~= list);
        assert(fields_of(list).dom() =~= fields_of(short).dom().insert(list[i].0@));
    }
}

} // verus!
