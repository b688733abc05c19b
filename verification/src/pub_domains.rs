//! Public-suffix matching for host names.
//!
//! A list of rules is taken in the format of <https://publicsuffix.org/list/>:
//! one rule per line, `//` starts a comment line, `*.` in front of a rule makes
//! it a wildcard and `!` in front makes it an exception to a wildcard.
//!
//! Wildcards are not restricted to the leftmost label of a name. The lists in
//! use hold no other form, so the matching is kept simple.

use crate::text::{
    chars_of, copy_range, equals_range, find_char, find_from, is_whitespace, lemma_find_from, trim,
    trim_end, trim_start,
};
use vstd::prelude::*;
use vstd::string::*;

verus! {

/// The contents of a rule list: what [`PubDomainRules`] stands for.
pub struct RuleSets {
    /// Names that are public suffixes themselves.
    pub rules: Set<Seq<char>>,
    /// Names under which every direct child is a public suffix.
    pub wildcards: Set<Seq<char>>,
    /// Names that are exempt from a wildcard.
    pub exceptions: Set<Seq<char>>,
}

/// `d` without its leading dots.
pub open spec fn trim_dots(d: Seq<char>) -> Seq<char>
    decreases d.len(),
{
    if d.len() > 0 && d[0] == '.' {
        trim_dots(d.drop_first())
    } else {
        d
    }
}

/// What follows the first dot of `s`; `None` if `s` has no dot.
pub open spec fn after_dot(s: Seq<char>) -> Option<Seq<char>> {
    let k = find_from(s, '.', 0);
    if k < s.len() {
        Some(s.skip(k + 1))
    } else {
        None
    }
}

/// Whether a list entry names an exception (`!name`).
pub open spec fn is_exception_item(item: Seq<char>) -> bool {
    item.len() >= 1 && item[0] == '!'
}

/// Whether a list entry names a wildcard (`*.name`).
pub open spec fn is_wildcard_item(item: Seq<char>) -> bool {
    !is_exception_item(item) && item.len() >= 2 && item[0] == '*' && item[1] == '.'
}

/// Whether a trimmed line of a list holds a rule: it is neither empty nor a comment.
pub open spec fn is_rule_line(line: Seq<char>) -> bool {
    line.len() > 0 && !(line.len() >= 2 && line[0] == '/' && line[1] == '/')
}

/// The rules that the text of a list holds, in order: its lines, separated by
/// `'\n'`, each trimmed of white space, without the empty ones and the comments.
pub open spec fn rule_lines(text: Seq<char>) -> Seq<Seq<char>>
    decreases text.len(),
    via rule_lines_decreases
{
    let end = find_from(text, '\n', 0);
    let line = trim(text.take(end));
    let head = if is_rule_line(line) {
        seq![line]
    } else {
        seq![]
    };
    if end < text.len() {
        head + rule_lines(text.skip(end + 1))
    } else {
        head
    }
}

#[via_fn]
proof fn rule_lines_decreases(text: Seq<char>) {
    lemma_find_from(text, '\n', 0);
}

impl RuleSets {
    /// The list without any rule.
    pub open spec fn empty() -> RuleSets {
        RuleSets { rules: Set::empty(), wildcards: Set::empty(), exceptions: Set::empty() }
    }

    /// The list with one more entry, filed by its prefix.
    pub open spec fn absorb(self, item: Seq<char>) -> RuleSets {
        if is_exception_item(item) {
            RuleSets { exceptions: self.exceptions.insert(item.skip(1)), ..self }
        } else if is_wildcard_item(item) {
            RuleSets { wildcards: self.wildcards.insert(item.skip(2)), ..self }
        } else {
            RuleSets { rules: self.rules.insert(item), ..self }
        }
    }

    /// The list with the given entries added, each filed by its prefix.
    pub open spec fn absorb_all(self, items: Seq<Seq<char>>) -> RuleSets
        decreases items.len(),
    {
        if items.len() == 0 {
            self
        } else {
            self.absorb(items.first()).absorb_all(items.drop_first())
        }
    }

    /// The list that holds exactly the given entries.
    pub open spec fn from_items(items: Seq<Seq<char>>) -> RuleSets {
        RuleSets::empty().absorb_all(items)
    }

    /// The list that a text in the format of the public suffix list describes.
    pub open spec fn parse(text: Seq<char>) -> RuleSets {
        RuleSets::from_items(rule_lines(text))
    }

    /// Walks the suffixes of a name from the longest to the shortest, one label
    /// at a time, and stops at the first that a rule decides. `suffix` is the
    /// one at hand and `prev` the one before it. The result is the public suffix
    /// and the registrable suffix.
    ///
    /// The last label is reached only if nothing applied before: it then is the
    /// public suffix, whatever the list holds.
    pub open spec fn walk(self, suffix: Seq<char>, prev: Seq<char>) -> (Seq<char>, Seq<char>)
        decreases suffix.len(),
        via Self::walk_decreases
    {
        match after_dot(suffix) {
            None => (suffix, prev),
            Some(next) => {
                if self.exceptions.contains(suffix) {
                    (next, suffix)
                } else if self.wildcards.contains(next) || self.rules.contains(suffix) {
                    (suffix, prev)
                } else {
                    self.walk(next, suffix)
                }
            },
        }
    }

    #[via_fn]
    proof fn walk_decreases(self, suffix: Seq<char>, prev: Seq<char>) {
        lemma_find_from(suffix, '.', 0);
    }

    /// The public suffix and the registrable suffix of `domain`, leading dots
    /// set aside.
    pub open spec fn suffix_pair(self, domain: Seq<char>) -> (Seq<char>, Seq<char>) {
        let d = trim_dots(domain);
        self.walk(d, d)
    }

    /// The public suffix of `domain`.
    pub open spec fn public_suffix(self, domain: Seq<char>) -> Seq<char> {
        self.suffix_pair(domain).0
    }

    /// The registrable suffix of `domain`: its public suffix and one more label,
    /// where it has one.
    pub open spec fn registrable_suffix(self, domain: Seq<char>) -> Seq<char> {
        self.suffix_pair(domain).1
    }

    /// Whether `domain`, leading dots set aside, is a public suffix.
    pub open spec fn is_public_suffix(self, domain: Seq<char>) -> bool {
        let d = trim_dots(domain);
        match after_dot(d) {
            None => d.len() > 0,
            Some(rest) => !self.exceptions.contains(d) && self.wildcards.contains(rest)
                || self.rules.contains(d),
        }
    }

    /// Whether `domain`, leading dots set aside, is a public suffix with
    /// exactly one more label in front.
    pub open spec fn is_registrable_suffix(self, domain: Seq<char>) -> bool {
        let d = trim_dots(domain);
        match after_dot(d) {
            None => false,
            Some(rest) => self.exceptions.contains(d) || !self.wildcards.contains(rest)
                && !self.rules.contains(d) && self.is_public_suffix(rest),
        }
    }
}

/// The names that `list` holds.
pub open spec fn entries(list: Seq<Vec<char>>) -> Set<Seq<char>> {
    Set::new(|s: Seq<char>| exists|i: int| 0 <= i < list.len() && #[trigger] list[i]@ == s)
}

/// No name occurs twice in `list`.
pub open spec fn distinct(list: Seq<Vec<char>>) -> bool {
    forall|i: int, j: int| 0 <= i < j < list.len() ==> #[trigger] list[i]@ != #[trigger] list[j]@
}

/// `find_from` on a suffix of `s` is `find_from` on `s`, shifted.
pub proof fn lemma_find_from_skip(s: Seq<char>, c: char, p: int)
    requires
        0 <= p <= s.len(),
    ensures
        find_from(s.skip(p), c, 0) == find_from(s, c, p) - p,
{
    let t = s.skip(p);
    lemma_find_from(t, c, 0);
    lemma_find_from(s, c, p);
    let a = find_from(t, c, 0);
    let b = find_from(s, c, p) - p;
    if a < b {
        assert(t[a] == s[p + a]);
    } else if b < a {
        assert(t[b] == s[p + b]);
    }
}

/// What follows the first dot of `s.skip(p)`, by positions in `s`.
pub proof fn lemma_after_dot_skip(s: Seq<char>, p: int)
    requires
        0 <= p <= s.len(),
    ensures
        p <= find_from(s, '.', p) <= s.len(),
        find_from(s, '.', p) < s.len() ==> after_dot(s.skip(p)) == Some(
            s.skip(find_from(s, '.', p) + 1),
        ),
        find_from(s, '.', p) >= s.len() ==> after_dot(s.skip(p)) is None,
{
    lemma_find_from_skip(s, '.', p);
    lemma_find_from(s, '.', p);
    let k = find_from(s, '.', p);
    if k < s.len() {
        assert(s.skip(p).skip(k - p + 1) =~= s.skip(k + 1));
    }
}

/// Whether `list` holds `chars[from..to]`.
fn holds(list: &Vec<Vec<char>>, chars: &Vec<char>, from: usize, to: usize) -> (r: bool)
    requires
        from <= to <= chars.len(),
    ensures
        r == entries(list@).contains(chars@.subrange(from as int, to as int)),
{
    let mut i: usize = 0;
    while i < list.len()
        invariant
            from <= to <= chars.len(),
            i <= list.len(),
            forall|j: int| 0 <= j < i ==> list@[j]@ != chars@.subrange(from as int, to as int),
        decreases list.len() - i,
    {
        if equals_range(&list[i], chars, from, to) {
            return true;
        }
        i += 1;
    }
    false
}

/// Adds `chars[from..to]` to `list` unless it is there.
fn insert_range(list: &mut Vec<Vec<char>>, chars: &Vec<char>, from: usize, to: usize)
    requires
        from <= to <= chars.len(),
        distinct(old(list)@),
    ensures
        distinct(final(list)@),
        entries(final(list)@) == entries(old(list)@).insert(
            chars@.subrange(from as int, to as int),
        ),
{
    let ghost name = chars@.subrange(from as int, to as int);
    if !holds(list, chars, from, to) {
        let item = copy_range(chars, from, to);
        list.push(item);
        proof {
            let before = old(list)@;
            let after = list@;
            assert(after[before.len() as int]@ == name);
            assert forall|s: Seq<char>| entries(after).contains(s) <==> entries(
                before,
            ).insert(name).contains(s) by {
                if entries(after).contains(s) {
                    let i = choose|i: int| 0 <= i < after.len() && #[trigger] after[i]@ == s;
                    if i < before.len() {
                        assert(before[i]@ == s);
                    }
                }
                if entries(before).contains(s) {
                    let i = choose|i: int| 0 <= i < before.len() && #[trigger] before[i]@ == s;
                    assert(after[i]@ == s);
                }
            }
        }
    }
    assert(entries(list@) =~= entries(old(list)@).insert(name));
}

/// A rule list: the names that are public suffixes, the wildcards and the
/// exceptions to them.
///
/// Each of the three holds a name at most once.
#[derive(Debug)]
pub struct PubDomainRules {
    rules: Vec<Vec<char>>,
    wildcards: Vec<Vec<char>>,
    exceptions: Vec<Vec<char>>,
}

impl View for PubDomainRules {
    type V = RuleSets;

    closed spec fn view(&self) -> RuleSets {
        RuleSets {
            rules: entries(self.rules@),
            wildcards: entries(self.wildcards@),
            exceptions: entries(self.exceptions@),
        }
    }
}

impl PubDomainRules {
    #[verifier::type_invariant]
    spec fn well_formed(self) -> bool {
        &&& distinct(self.rules@)
        &&& distinct(self.wildcards@)
        &&& distinct(self.exceptions@)
    }

    /// Files `chars[from..to]` as one entry of a list under construction.
    fn absorb_range(&mut self, chars: &Vec<char>, from: usize, to: usize)
        requires
            from <= to <= chars.len(),
        ensures
            final(self)@ == old(self)@.absorb(chars@.subrange(from as int, to as int)),
    {
        proof {
            use_type_invariant(&*self);
        }
        let ghost item = chars@.subrange(from as int, to as int);
        let mut rules: Vec<Vec<char>> = Vec::new();
        let mut wildcards: Vec<Vec<char>> = Vec::new();
        let mut exceptions: Vec<Vec<char>> = Vec::new();
        std::mem::swap(&mut rules, &mut self.rules);
        std::mem::swap(&mut wildcards, &mut self.wildcards);
        std::mem::swap(&mut exceptions, &mut self.exceptions);
        if to - from >= 1 && chars[from] == '!' {
            assert(item.skip(1) =~= chars@.subrange(from + 1, to as int));
            insert_range(&mut exceptions, chars, from + 1, to);
        } else if to - from >= 2 && chars[from] == '*' && chars[from + 1] == '.' {
            assert(item.skip(2) =~= chars@.subrange(from + 2, to as int));
            insert_range(&mut wildcards, chars, from + 2, to);
        } else {
            insert_range(&mut rules, chars, from, to);
        }
        self.rules = rules;
        self.wildcards = wildcards;
        self.exceptions = exceptions;
    }

    /// The list without any rule.
    pub fn new() -> (r: PubDomainRules)
        ensures
            r@ == RuleSets::empty(),
    {
        let r = PubDomainRules { rules: Vec::new(), wildcards: Vec::new(), exceptions: Vec::new() };
        assert(r@.rules =~= Set::empty());
        assert(r@.wildcards =~= Set::empty());
        assert(r@.exceptions =~= Set::empty());
        r
    }

    /// The names that are public suffixes themselves, each once.
    pub fn rules(&self) -> (r: &Vec<Vec<char>>)
        ensures
            entries(r@) == self@.rules,
            distinct(r@),
    {
        proof {
            use_type_invariant(self);
        }
        &self.rules
    }

    /// The names under which every direct child is a public suffix, each once.
    pub fn wildcards(&self) -> (r: &Vec<Vec<char>>)
        ensures
            entries(r@) == self@.wildcards,
            distinct(r@),
    {
        proof {
            use_type_invariant(self);
        }
        &self.wildcards
    }

    /// The names that are exempt from a wildcard, each once.
    pub fn exceptions(&self) -> (r: &Vec<Vec<char>>)
        ensures
            entries(r@) == self@.exceptions,
            distinct(r@),
    {
        proof {
            use_type_invariant(self);
        }
        &self.exceptions
    }

    /// The list that holds the given entries: `!name` is an exception,
    /// `*.name` a wildcard, anything else a rule.
    pub fn from_iter(items: &[&str]) -> (r: PubDomainRules)
        ensures
            r@ == RuleSets::from_items(views(items@)),
    {
        let mut r = PubDomainRules::new();
        let mut k: usize = 0;
        assert(views(items@).skip(0) =~= views(items@));
        while k < items.len()
            invariant
                k <= items.len(),
                RuleSets::from_items(views(items@)) == r@.absorb_all(views(items@).skip(k as int)),
            decreases items.len() - k,
        {
            let chars = chars_of(items[k]);
            proof {
                let rest = views(items@).skip(k as int);
                assert(rest.first() == chars@);
                assert(rest.drop_first() =~= views(items@).skip(k + 1));
                assert(chars@.subrange(0, chars.len() as int) =~= chars@);
            }
            r.absorb_range(&chars, 0, chars.len());
            k += 1;
        }
        r
    }

    /// Reads a list in the format of the public suffix list: one entry per
    /// line, white space around it ignored, empty lines and lines that start
    /// with `//` skipped.
    pub fn parse(content: &str) -> (r: PubDomainRules)
        ensures
            r@ == RuleSets::parse(content@),
    {
        let chars = chars_of(content);
        let n: usize = chars.len();
        let mut r = PubDomainRules::new();
        let mut p: usize = 0;
        assert(chars@.skip(0) =~= chars@);
        loop
            invariant_except_break
                p <= n,
                n == chars.len(),
                RuleSets::parse(content@) == r@.absorb_all(rule_lines(chars@.skip(p as int))),
            ensures
                r@ == RuleSets::parse(content@),
            decreases n - p,
        {
            let ghost text = chars@.skip(p as int);
            let ghost before = r@;
            let end = find_char(&chars, '\n', p, n);
            let (a, b) = trim_range(&chars, p, end);
            let ghost line = chars@.subrange(a as int, b as int);
            let ghost rest = if end < n {
                rule_lines(chars@.skip(end + 1))
            } else {
                Seq::<Seq<char>>::empty()
            };
            proof {
                assert(chars@.take(n as int) =~= chars@);
                lemma_find_from_skip(chars@, '\n', p as int);
                assert(text.take(end - p) =~= chars@.subrange(p as int, end as int));
                if end < n {
                    assert(text.skip(end - p + 1) =~= chars@.skip(end + 1));
                }
            }
            if b > a && !(b - a >= 2 && chars[a] == '/' && chars[a + 1] == '/') {
                r.absorb_range(&chars, a, b);
                proof {
                    assert(is_rule_line(line));
                    assert(rule_lines(text) =~= seq![line] + rest);
                    assert((seq![line] + rest).drop_first() =~= rest);
                }
            } else {
                proof {
                    assert(!is_rule_line(line));
                    assert(rule_lines(text) =~= rest);
                }
            }
            assert(RuleSets::parse(content@) == r@.absorb_all(rest));
            if end >= n {
                break ;
            }
            p = end + 1;
        }
        r
    }

    /// Where in `chars` the public suffix and the registrable suffix start.
    fn suffix_bounds(&self, chars: &Vec<char>) -> (r: (usize, usize))
        ensures
            r.0 <= chars.len(),
            r.1 <= chars.len(),
            chars@.skip(r.0 as int) == self@.suffix_pair(chars@).0,
            chars@.skip(r.1 as int) == self@.suffix_pair(chars@).1,
    {
        let n: usize = chars.len();
        let start = leading_dots(chars, 0);
        let mut suffix: usize = start;
        let mut prev: usize = start;
        assert(chars@.skip(0) =~= chars@);
        loop
            invariant
                n == chars.len(),
                prev <= suffix <= n,
                self@.suffix_pair(chars@) == self@.walk(
                    chars@.skip(suffix as int),
                    chars@.skip(prev as int),
                ),
            decreases n - suffix,
        {
            let dot = find_char(chars, '.', suffix, n);
            proof {
                assert(chars@.take(n as int) =~= chars@);
                lemma_after_dot_skip(chars@, suffix as int);
                assert(chars@.subrange(suffix as int, n as int) =~= chars@.skip(suffix as int));
            }
            if dot >= n {
                return (suffix, prev);
            }
            let next: usize = dot + 1;
            assert(chars@.subrange(next as int, n as int) =~= chars@.skip(next as int));
            if holds(&self.exceptions, chars, suffix, n) {
                return (next, suffix);
            }
            if holds(&self.wildcards, chars, next, n) || holds(&self.rules, chars, suffix, n) {
                return (suffix, prev);
            }
            prev = suffix;
            suffix = next;
        }
    }

    /// The public suffix and the registrable suffix of `domain`, as parts of it.
    pub fn suffix_pair<'a>(&self, domain: &'a str) -> (r: (&'a str, &'a str))
        ensures
            r.0@ == self@.public_suffix(domain@),
            r.1@ == self@.registrable_suffix(domain@),
    {
        let chars = chars_of(domain);
        let n: usize = chars.len();
        let (public, registrable) = self.suffix_bounds(&chars);
        proof {
            assert(domain@.subrange(public as int, n as int) =~= domain@.skip(public as int));
            assert(domain@.subrange(registrable as int, n as int) =~= domain@.skip(
                registrable as int,
            ));
        }
        (domain.substring_char(public, n), domain.substring_char(registrable, n))
    }

    /// The public suffix of `domain`: the part of it, from some label on, that
    /// the list names as one under which names are registered.
    pub fn public_suffix<'a>(&self, domain: &'a str) -> (r: &'a str)
        ensures
            r@ == self@.public_suffix(domain@),
    {
        let (public, _) = self.suffix_pair(domain);
        public
    }

    /// The registrable suffix of `domain`: its public suffix and the label in
    /// front of it.
    pub fn registrable_suffix<'a>(&self, domain: &'a str) -> (r: &'a str)
        ensures
            r@ == self@.registrable_suffix(domain@),
    {
        let (_, registrable) = self.suffix_pair(domain);
        registrable
    }

    /// Whether `chars[from..]` is a public suffix.
    fn is_public_suffix_at(&self, chars: &Vec<char>, from: usize) -> (r: bool)
        requires
            from <= chars.len(),
        ensures
            r == self@.is_public_suffix(chars@.skip(from as int)),
    {
        let n: usize = chars.len();
        let start = leading_dots(chars, from);
        let dot = find_char(chars, '.', start, n);
        proof {
            assert(chars@.take(n as int) =~= chars@);
            lemma_after_dot_skip(chars@, start as int);
            assert(chars@.subrange(start as int, n as int) =~= chars@.skip(start as int));
        }
        if dot >= n {
            start < n
        } else {
            assert(chars@.subrange(dot + 1, n as int) =~= chars@.skip(dot + 1));
            !holds(&self.exceptions, chars, start, n) && holds(&self.wildcards, chars, dot + 1, n)
                || holds(&self.rules, chars, start, n)
        }
    }

    /// Whether `domain`, leading dots set aside, is a public suffix.
    pub fn is_public_suffix(&self, domain: &str) -> (r: bool)
        ensures
            r == self@.is_public_suffix(domain@),
    {
        let chars = chars_of(domain);
        assert(chars@.skip(0) =~= chars@);
        self.is_public_suffix_at(&chars, 0)
    }

    /// Whether `domain`, leading dots set aside, is a registrable suffix: a
    /// public suffix with one more label in front.
    pub fn is_registrable_suffix(&self, domain: &str) -> (r: bool)
        ensures
            r == self@.is_registrable_suffix(domain@),
    {
        let chars = chars_of(domain);
        let n: usize = chars.len();
        let start = leading_dots(&chars, 0);
        let dot = find_char(&chars, '.', start, n);
        proof {
            assert(chars@.skip(0) =~= chars@);
            assert(chars@.take(n as int) =~= chars@);
            lemma_after_dot_skip(chars@, start as int);
            assert(chars@.subrange(start as int, n as int) =~= chars@.skip(start as int));
        }
        if dot >= n {
            false
        } else {
            assert(chars@.subrange(dot + 1, n as int) =~= chars@.skip(dot + 1));
            holds(&self.exceptions, &chars, start, n) || !holds(&self.wildcards, &chars, dot + 1, n)
                && !holds(&self.rules, &chars, start, n) && self.is_public_suffix_at(
                &chars,
                dot + 1,
            )
        }
    }
}

/// A copy of `list`.
fn copy_names(list: &Vec<Vec<char>>) -> (r: Vec<Vec<char>>)
    ensures
        r@.len() == list@.len(),
        forall|i: int| 0 <= i < list@.len() ==> (#[trigger] r@[i])@ == list@[i]@,
{
    let mut r: Vec<Vec<char>> = Vec::new();
    let mut i: usize = 0;
    while i < list.len()
        invariant
            i <= list.len(),
            r.len() == i,
            forall|j: int| 0 <= j < i ==> (#[trigger] r@[j])@ == list@[j]@,
        decreases list.len() - i,
    {
        let item = copy_range(&list[i], 0, list[i].len());
        assert(list@[i as int]@.subrange(0, list@[i as int]@.len() as int) =~= list@[i as int]@);
        r.push(item);
        i += 1;
    }
    r
}

/// Lists that agree place by place hold the same names.
proof fn lemma_same_entries(a: Seq<Vec<char>>, b: Seq<Vec<char>>)
    requires
        a.len() == b.len(),
        forall|i: int| 0 <= i < a.len() ==> (#[trigger] b[i])@ == a[i]@,
    ensures
        entries(b) == entries(a),
        distinct(a) ==> distinct(b),
{
    assert forall|s: Seq<char>| entries(a).contains(s) <==> entries(b).contains(s) by {
        if entries(a).contains(s) {
            let i = choose|i: int| 0 <= i < a.len() && #[trigger] a[i]@ == s;
            assert(b[i]@ == s);
        }
        if entries(b).contains(s) {
            let i = choose|i: int| 0 <= i < b.len() && #[trigger] b[i]@ == s;
            assert(a[i]@ == s);
        }
    }
    assert(entries(b) =~= entries(a));
    if distinct(a) {
        assert forall|i: int, j: int| 0 <= i < j < b.len() implies #[trigger] b[i]@
            != #[trigger] b[j]@ by {
            assert(a[i]@ != a[j]@);
        }
    }
}

impl Clone for PubDomainRules {
    fn clone(&self) -> (r: PubDomainRules)
        ensures
            r@ == self@,
    {
        proof {
            use_type_invariant(self);
        }
        let rules = copy_names(&self.rules);
        let wildcards = copy_names(&self.wildcards);
        let exceptions = copy_names(&self.exceptions);
        proof {
            lemma_same_entries(self.rules@, rules@);
            lemma_same_entries(self.wildcards@, wildcards@);
            lemma_same_entries(self.exceptions@, exceptions@);
        }
        PubDomainRules { rules, wildcards, exceptions }
    }
}

impl Default for PubDomainRules {
    fn default() -> (r: PubDomainRules)
        ensures
            r@ == RuleSets::empty(),
    {
        PubDomainRules::new()
    }
}

/// The views of the given strings.
pub open spec fn views(items: Seq<&str>) -> Seq<Seq<char>> {
    Seq::new(items.len(), |i: int| items[i]@)
}

/// Where `chars[from..]` starts once its leading dots are set aside.
fn leading_dots(chars: &Vec<char>, from: usize) -> (start: usize)
    requires
        from <= chars.len(),
    ensures
        from <= start <= chars.len(),
        chars@.skip(start as int) == trim_dots(chars@.skip(from as int)),
{
    let mut start: usize = from;
    while start < chars.len() && chars[start] == '.'
        invariant
            from <= start <= chars.len(),
            trim_dots(chars@.skip(from as int)) == trim_dots(chars@.skip(start as int)),
        decreases chars.len() - start,
    {
        assert(chars@.skip(start as int).drop_first() =~= chars@.skip(start + 1));
        start += 1;
    }
    start
}

/// Where `chars[from..to]` starts and ends once the white space around it is
/// set aside.
fn trim_range(chars: &Vec<char>, from: usize, to: usize) -> (r: (usize, usize))
    requires
        from <= to <= chars.len(),
    ensures
        from <= r.0 <= r.1 <= to,
        chars@.subrange(r.0 as int, r.1 as int) == trim(chars@.subrange(from as int, to as int)),
{
    let mut a: usize = from;
    while a < to && is_whitespace(chars[a])
        invariant
            from <= a <= to <= chars.len(),
            trim_start(chars@.subrange(from as int, to as int)) == trim_start(
                chars@.subrange(a as int, to as int),
            ),
        decreases to - a,
    {
        assert(chars@.subrange(a as int, to as int).drop_first() =~= chars@.subrange(
            a + 1,
            to as int,
        ));
        a += 1;
    }
    let mut b: usize = to;
    while b > a && is_whitespace(chars[b - 1])
        invariant
            a <= b <= to <= chars.len(),
            trim_end(chars@.subrange(a as int, to as int)) == trim_end(
                chars@.subrange(a as int, b as int),
            ),
        decreases b - a,
    {
        assert(chars@.subrange(a as int, b as int).drop_last() =~= chars@.subrange(
            a as int,
            b - 1,
        ));
        b -= 1;
    }
    (a, b)
}

/// The public suffix of `domain` under `rules`.
pub fn pub_suffix<'a>(rules: &PubDomainRules, domain: &'a str) -> (r: &'a str)
    ensures
        r@ == rules@.public_suffix(domain@),
{
    rules.public_suffix(domain)
}

/// The registrable suffix of `domain` under `rules`.
pub fn reg_suffix<'a>(rules: &PubDomainRules, domain: &'a str) -> (r: &'a str)
    ensures
        r@ == rules@.registrable_suffix(domain@),
{
    rules.registrable_suffix(domain)
}

/// Whether `domain` is a public suffix under `rules`.
pub fn is_pub_domain(rules: &PubDomainRules, domain: &str) -> (r: bool)
    ensures
        r == rules@.is_public_suffix(domain@),
{
    rules.is_public_suffix(domain)
}

/// Whether `domain` is a registrable suffix under `rules`.
pub fn is_reg_domain(rules: &PubDomainRules, domain: &str) -> (r: bool)
    ensures
        r == rules@.is_registrable_suffix(domain@),
{
    rules.is_registrable_suffix(domain)
}

/// The host of a URL.
#[derive(Debug)]
pub enum Host {
    /// A domain name.
    Domain(String),
    /// An IPv4 address, as a number.
    Ipv4(u32),
    /// An IPv6 address, as a number.
    Ipv6(u128),
}

/// The origin of a URL.
#[derive(Debug)]
pub enum Origin {
    /// An origin that is equal to no other.
    Opaque,
    /// Scheme, host and port.
    Tuple(String, Host, u16),
}

impl Host {
    /// Whether `other` is the same host.
    pub open spec fn same(self, other: Host) -> bool {
        match (self, other) {
            (Host::Domain(a), Host::Domain(b)) => a@ == b@,
            (Host::Ipv4(a), Host::Ipv4(b)) => a == b,
            (Host::Ipv6(a), Host::Ipv6(b)) => a == b,
            _ => false,
        }
    }
}

impl Origin {
    /// Whether `other` is the same origin, as far as scheme, host and port
    /// tell.
    pub open spec fn same(self, other: Origin) -> bool {
        match (self, other) {
            (Origin::Opaque, Origin::Opaque) => true,
            (Origin::Tuple(s, h, p), Origin::Tuple(t, i, q)) => s@ == t@ && h.same(i) && p == q,
            _ => false,
        }
    }
}

impl Clone for Host {
    fn clone(&self) -> (r: Host)
        ensures
            self.same(r),
    {
        match self {
            Host::Domain(name) => Host::Domain(name.clone()),
            Host::Ipv4(address) => Host::Ipv4(*address),
            Host::Ipv6(address) => Host::Ipv6(*address),
        }
    }
}

impl Clone for Origin {
    fn clone(&self) -> (r: Origin)
        ensures
            self.same(r),
    {
        match self {
            Origin::Opaque => Origin::Opaque,
            Origin::Tuple(scheme, host, port) => Origin::Tuple(scheme.clone(), host.clone(), *port),
        }
    }
}

/// The registered domain name of an origin under `rules`: the registrable
/// suffix of its host where that is a domain name, the host itself where it is
/// an address, and nothing for an opaque origin.
pub fn reg_host(rules: &PubDomainRules, origin: Origin) -> (r: Option<Host>)
    ensures
        match origin {
            Origin::Opaque => r is None,
            Origin::Tuple(_, Host::Domain(domain), _) => r matches Some(Host::Domain(name))
                && name@ == rules@.registrable_suffix(domain@),
            Origin::Tuple(_, Host::Ipv4(address), _) => r matches Some(Host::Ipv4(a)) && a
                == address,
            Origin::Tuple(_, Host::Ipv6(address), _) => r matches Some(Host::Ipv6(a)) && a
                == address,
        },
{
    match origin {
        Origin::Tuple(_, Host::Domain(domain), _) => {
            Some(Host::Domain(reg_suffix(rules, domain.as_str()).to_owned()))
        },
        Origin::Tuple(_, ip, _) => Some(ip),
        Origin::Opaque => None,
    }
}

/// A suffix of a suffix is a suffix.
pub proof fn lemma_suffix_of_suffix(a: Seq<char>, b: Seq<char>, c: Seq<char>)
    requires
        a.is_suffix_of(b),
        b.is_suffix_of(c),
    ensures
        a.is_suffix_of(c),
{
    assert(a =~= c.skip(c.len() - a.len())) by {
        assert(a =~= b.skip(b.len() - a.len()));
        assert(b =~= c.skip(c.len() - b.len()));
    }
}

/// Without its leading dots a name is a suffix of itself that does not start
/// with a dot.
pub proof fn lemma_trim_dots(d: Seq<char>)
    ensures
        trim_dots(d).is_suffix_of(d),
        trim_dots(d).len() > 0 ==> trim_dots(d)[0] != '.',
    decreases d.len(),
{
    if d.len() > 0 && d[0] == '.' {
        lemma_trim_dots(d.drop_first());
        assert(d.drop_first().is_suffix_of(d)) by {
            assert(d.drop_first() =~= d.skip(1));
        }
        lemma_suffix_of_suffix(trim_dots(d), d.drop_first(), d);
    } else {
        assert(d =~= d.skip(0));
    }
}

/// What follows the first dot is a shorter suffix.
pub proof fn lemma_after_dot(s: Seq<char>)
    ensures
        after_dot(s) matches Some(next) ==> next.is_suffix_of(s) && next.len() < s.len(),
{
    lemma_find_from(s, '.', 0);
}

/// The walk hands out suffixes: the public suffix is a suffix of the
/// registrable suffix, and that is the suffix before the one at hand or a
/// suffix of the one at hand.
pub proof fn law_walk_gives_suffixes(rules: RuleSets, suffix: Seq<char>, prev: Seq<char>)
    requires
        suffix.is_suffix_of(prev),
    ensures
        rules.walk(suffix, prev).0.is_suffix_of(suffix),
        rules.walk(suffix, prev).0.is_suffix_of(rules.walk(suffix, prev).1),
        rules.walk(suffix, prev).1 == prev || rules.walk(suffix, prev).1.is_suffix_of(suffix),
    decreases suffix.len(),
{
    lemma_after_dot(suffix);
    assert(suffix.is_suffix_of(suffix)) by {
        assert(suffix =~= suffix.skip(0));
    }
    match after_dot(suffix) {
        None => {},
        Some(next) => {
            if rules.exceptions.contains(suffix) {
            } else if rules.wildcards.contains(next) || rules.rules.contains(suffix) {
            } else {
                law_walk_gives_suffixes(rules, next, suffix);
                let (public, registrable) = rules.walk(next, suffix);
                lemma_suffix_of_suffix(public, next, suffix);
                if registrable != suffix {
                    lemma_suffix_of_suffix(registrable, next, suffix);
                }
            }
        },
    }
}

/// The public suffix of a name is a suffix of its registrable suffix, which
/// is a suffix of the name.
pub proof fn law_suffixes(rules: RuleSets, domain: Seq<char>)
    ensures
        rules.public_suffix(domain).is_suffix_of(rules.registrable_suffix(domain)),
        rules.registrable_suffix(domain).is_suffix_of(domain),
{
    let d = trim_dots(domain);
    lemma_trim_dots(domain);
    assert(d.is_suffix_of(d)) by {
        assert(d =~= d.skip(0));
    }
    law_walk_gives_suffixes(rules, d, d);
    lemma_suffix_of_suffix(rules.registrable_suffix(domain), d, domain);
}

/// A name is a public suffix exactly if it is not empty and is its own public
/// suffix, leading dots set aside, provided that the list does not hold it
/// both as a rule and as an exception.
pub proof fn law_is_public_suffix(rules: RuleSets, domain: Seq<char>)
    requires
        !(rules.exceptions.contains(trim_dots(domain)) && rules.rules.contains(
            trim_dots(domain),
        )),
    ensures
        rules.is_public_suffix(domain) <==> trim_dots(domain).len() > 0 && rules.public_suffix(
            domain,
        ) == trim_dots(domain),
{
    let d = trim_dots(domain);
    lemma_after_dot(d);
    match after_dot(d) {
        None => {},
        Some(next) => {
            if rules.exceptions.contains(d) {
            } else if rules.wildcards.contains(next) || rules.rules.contains(d) {
            } else {
                law_walk_gives_suffixes(rules, next, d);
            }
        },
    }
}

/// A name is a registrable suffix exactly if it is its own registrable suffix
/// and not its own public suffix, leading dots set aside, provided that what
/// follows its first label is a name (it is not empty and does not start with
/// a dot) that the list does not hold both as a rule and as an exception.
pub proof fn law_is_registrable_suffix(rules: RuleSets, domain: Seq<char>)
    requires
        after_dot(trim_dots(domain)) matches Some(rest) ==> {
            &&& rest.len() > 0
            &&& rest[0] != '.'
            &&& !(rules.exceptions.contains(rest) && rules.rules.contains(rest))
        },
    ensures
        rules.is_registrable_suffix(domain) <==> rules.public_suffix(domain) != trim_dots(domain)
            && rules.registrable_suffix(domain) == trim_dots(domain),
{
    let d = trim_dots(domain);
    reveal_with_fuel(RuleSets::walk, 3);
    lemma_after_dot(d);
    match after_dot(d) {
        None => {},
        Some(next) => {
            if rules.exceptions.contains(d) {
            } else if rules.wildcards.contains(next) || rules.rules.contains(d) {
            } else {
                assert(trim_dots(next) == next);
                assert(rules.suffix_pair(domain) == rules.walk(next, d));
                lemma_after_dot(next);
                match after_dot(next) {
                    None => {
                        assert(rules.walk(next, d) == (next, d));
                    },
                    Some(after) => {
                        if rules.exceptions.contains(next) {
                            assert(rules.walk(next, d) == (after, next));
                            assert(!rules.is_public_suffix(next));
                        } else if rules.wildcards.contains(after) || rules.rules.contains(next) {
                            assert(rules.walk(next, d) == (next, d));
                            assert(rules.is_public_suffix(next));
                        } else {
                            assert(rules.walk(next, d) == rules.walk(after, next));
                            law_walk_gives_suffixes(rules, after, next);
                            assert(!rules.is_public_suffix(next));
                        }
                    },
                }
            }
        },
    }
}

/// What a list holds once entries have been added to it: what it held, and
/// each entry under the set that its prefix names, without the prefix.
pub proof fn law_absorb_all(before: RuleSets, items: Seq<Seq<char>>, name: Seq<char>)
    ensures
        before.absorb_all(items).rules.contains(name) <==> before.rules.contains(name) || exists|
            i: int,
        |
            0 <= i < items.len() && !is_exception_item(#[trigger] items[i]) && !is_wildcard_item(
                items[i],
            ) && items[i] == name,
        before.absorb_all(items).wildcards.contains(name) <==> before.wildcards.contains(name)
            || exists|i: int|
            0 <= i < items.len() && is_wildcard_item(#[trigger] items[i]) && items[i].skip(2)
                == name,
        before.absorb_all(items).exceptions.contains(name) <==> before.exceptions.contains(name)
            || exists|i: int|
            0 <= i < items.len() && is_exception_item(#[trigger] items[i]) && items[i].skip(1)
                == name,
    decreases items.len(),
{
    if items.len() > 0 {
        let first = items.first();
        let rest = items.drop_first();
        let next = before.absorb(first);
        law_absorb_all(next, rest, name);
        assert forall|i: int| 0 <= i < rest.len() implies #[trigger] rest[i] == items[i + 1] by {}
        if exists|i: int|
            0 <= i < rest.len() && !is_exception_item(#[trigger] rest[i]) && !is_wildcard_item(
                rest[i],
            ) && rest[i] == name {
            let i = choose|i: int|
                0 <= i < rest.len() && !is_exception_item(#[trigger] rest[i]) && !is_wildcard_item(
                    rest[i],
                ) && rest[i] == name;
            assert(items[i + 1] == name);
        }
        if exists|i: int|
            0 <= i < rest.len() && is_wildcard_item(#[trigger] rest[i]) && rest[i].skip(2) == name {
            let i = choose|i: int|
                0 <= i < rest.len() && is_wildcard_item(#[trigger] rest[i]) && rest[i].skip(2)
                    == name;
            assert(items[i + 1].skip(2) == name);
        }
        if exists|i: int|
            0 <= i < rest.len() && is_exception_item(#[trigger] rest[i]) && rest[i].skip(1)
                == name {
            let i = choose|i: int|
                0 <= i < rest.len() && is_exception_item(#[trigger] rest[i]) && rest[i].skip(1)
                    == name;
            assert(items[i + 1].skip(1) == name);
        }
        assert forall|i: int| 1 <= i < items.len() implies #[trigger] items[i] == rest[i - 1] by {}
        if exists|i: int|
            0 <= i < items.len() && !is_exception_item(#[trigger] items[i]) && !is_wildcard_item(
                items[i],
            ) && items[i] == name {
            let i = choose|i: int|
                0 <= i < items.len() && !is_exception_item(#[trigger] items[i])
                    && !is_wildcard_item(items[i]) && items[i] == name;
            if i > 0 {
                assert(rest[i - 1] == name);
            }
        }
        if exists|i: int|
            0 <= i < items.len() && is_wildcard_item(#[trigger] items[i]) && items[i].skip(2)
                == name {
            let i = choose|i: int|
                0 <= i < items.len() && is_wildcard_item(#[trigger] items[i]) && items[i].skip(2)
                    == name;
            if i > 0 {
                assert(rest[i - 1].skip(2) == name);
            }
        }
        if exists|i: int|
            0 <= i < items.len() && is_exception_item(#[trigger] items[i]) && items[i].skip(1)
                == name {
            let i = choose|i: int|
                0 <= i < items.len() && is_exception_item(#[trigger] items[i]) && items[i].skip(1)
                    == name;
            if i > 0 {
                assert(rest[i - 1].skip(1) == name);
            }
        }
    }
}

/// What a list made of entries holds: each entry under the set that its
/// prefix names, without the prefix, and nothing else.
pub proof fn law_from_items(items: Seq<Seq<char>>, name: Seq<char>)
    ensures
        RuleSets::from_items(items).rules.contains(name) <==> exists|i: int|
            0 <= i < items.len() && !is_exception_item(#[trigger] items[i]) && !is_wildcard_item(
                items[i],
            ) && items[i] == name,
        RuleSets::from_items(items).wildcards.contains(name) <==> exists|i: int|
            0 <= i < items.len() && is_wildcard_item(#[trigger] items[i]) && items[i].skip(2)
                == name,
        RuleSets::from_items(items).exceptions.contains(name) <==> exists|i: int|
            0 <= i < items.len() && is_exception_item(#[trigger] items[i]) && items[i].skip(1)
                == name,
{
    law_absorb_all(RuleSets::empty(), items, name);
}

} // verus!
