//! Text helpers: characters, comparison and trimming.
//!
//! Strings are modelled as sequences of characters, so every contract below
//! speaks of `Seq<char>`.

use vstd::prelude::*;

verus! {

/// `String::push` appends the character at the end of the string.
pub assume_specification[ String::push ](s: &mut String, c: char)
    ensures
        final(s)@ == old(s)@.push(c),
;

/// The texts that strings hold.
pub open spec fn texts(v: Seq<String>) -> Seq<Seq<char>> {
    v.map_values(|s: String| s@)
}

/// Appends a line to `lines`.
pub fn push_line(lines: &mut Vec<String>, line: String)
    ensures
        texts(final(lines)@) == texts(old(lines)@).push(line@),
{
    lines.push(line);
    assert(texts(lines@) =~= texts(old(lines)@).push(line@));
}

/// The characters of a string, in order.
pub fn to_chars(s: &str) -> (chars: Vec<char>)
    ensures
        chars@ == s@,
{
    let mut chars: Vec<char> = Vec::new();
    for c in it: s.chars()
        invariant
            it.seq() == s@,
            chars@ == s@.take(it.index() as int),
    {
        chars.push(c);
    }
    chars
}

/// The string made of the characters `chars[from..to]`.
pub fn from_chars(chars: &[char], from: usize, to: usize) -> (s: String)
    requires
        from <= to <= chars@.len(),
    ensures
        s@ == chars@.subrange(from as int, to as int),
{
    let mut s = String::new();
    let mut i: usize = from;
    while i < to
        invariant
            from <= i <= to <= chars@.len(),
            s@ == chars@.subrange(from as int, i as int),
        decreases to - i,
    {
        s.push(chars[i]);
        i = i + 1;
    }
    s
}

/// Whether two strings hold the same characters.
pub fn same_text(a: &str, b: &str) -> (same: bool)
    ensures
        same == (a@ == b@),
{
    let x = to_chars(a);
    let y = to_chars(b);
    if x.len() != y.len() {
        return false;
    }
    let mut i: usize = 0;
    while i < x.len()
        invariant
            x@ == a@,
            y@ == b@,
            x.len() == y.len(),
            i <= x.len(),
            forall|k: int| 0 <= k < i ==> x@[k] == y@[k],
        decreases x.len() - i,
    {
        if x[i] != y[i] {
            assert(a@[i as int] != b@[i as int]);
            return false;
        }
        i = i + 1;
    }
    assert(a@ =~= b@);
    true
}

/// Whether `s` begins with `prefix`.
pub open spec fn has_prefix(s: Seq<char>, prefix: Seq<char>) -> bool {
    prefix.len() <= s.len() && s.take(prefix.len() as int) == prefix
}

/// Whether `s` ends with `suffix`.
pub open spec fn has_suffix(s: Seq<char>, suffix: Seq<char>) -> bool {
    suffix.len() <= s.len() && s.skip(s.len() - suffix.len()) == suffix
}

/// Whether the characters of `part` stand in `chars` from position `at` on.
pub fn stands_at(chars: &[char], part: &str, at: usize) -> (found: bool)
    requires
        at <= chars@.len(),
    ensures
        found == has_prefix(chars@.skip(at as int), part@),
{
    let p = to_chars(part);
    let n: usize = chars.len();
    if n - at < p.len() {
        return false;
    }
    let ghost rest = chars@.skip(at as int);
    let mut i: usize = 0;
    while i < p.len()
        invariant
            n == chars@.len(),
            at <= n,
            p@ == part@,
            p.len() <= n - at,
            rest == chars@.skip(at as int),
            i <= p.len(),
            forall|k: int| 0 <= k < i ==> rest[k] == p@[k],
        decreases p.len() - i,
    {
        if chars[at + i] != p[i] {
            assert(rest[i as int] != part@[i as int]);
            assert(rest.take(part@.len() as int)[i as int] == rest[i as int]);
            return false;
        }
        assert(rest[i as int] == chars@[at + i]);
        i = i + 1;
    }
    assert(rest.take(part@.len() as int) =~= part@);
    true
}

/// Whether `s` begins with `prefix`.
pub fn starts_with(s: &str, prefix: &str) -> (found: bool)
    ensures
        found == has_prefix(s@, prefix@),
{
    let chars = to_chars(s);
    assert(s@.skip(0) =~= s@);
    stands_at(chars.as_slice(), prefix, 0)
}

/// Whether `s` ends with `suffix`.
pub fn ends_with(s: &str, suffix: &str) -> (found: bool)
    ensures
        found == has_suffix(s@, suffix@),
{
    let chars = to_chars(s);
    let tail = to_chars(suffix);
    if chars.len() < tail.len() {
        return false;
    }
    let at: usize = chars.len() - tail.len();
    let found = stands_at(chars.as_slice(), suffix, at);
    assert(s@.skip(at as int).take(suffix@.len() as int) =~= s@.skip(at as int));
    found
}

/// White space as Unicode's `White_Space` property defines it.
pub open spec fn is_space(c: char) -> bool {
    let n = c as u32;
    ||| 0x09 <= n <= 0x0d
    ||| n == 0x20
    ||| n == 0x85
    ||| n == 0xa0
    ||| n == 0x1680
    ||| 0x2000 <= n <= 0x200a
    ||| n == 0x2028
    ||| n == 0x2029
    ||| n == 0x202f
    ||| n == 0x205f
    ||| n == 0x3000
}

/// Whether `c` is white space.
pub fn space(c: char) -> (b: bool)
    ensures
        b == is_space(c),
{
    let n: u32 = c as u32;
    (0x09 <= n && n <= 0x0d) || n == 0x20 || n == 0x85 || n == 0xa0 || n == 0x1680 || (0x2000 <= n
        && n <= 0x200a) || n == 0x2028 || n == 0x2029 || n == 0x202f || n == 0x205f || n == 0x3000
}

/// `s` without the white space at its start.
pub open spec fn trim_start(s: Seq<char>) -> Seq<char>
    decreases s.len(),
{
    if s.len() > 0 && is_space(s[0]) {
        trim_start(s.drop_first())
    } else {
        s
    }
}

/// `s` without the white space at its end.
pub open spec fn trim_end(s: Seq<char>) -> Seq<char>
    decreases s.len(),
{
    if s.len() > 0 && is_space(s.last()) {
        trim_end(s.drop_last())
    } else {
        s
    }
}

/// `s` without the white space at either end.
pub open spec fn trimmed(s: Seq<char>) -> Seq<char> {
    trim_end(trim_start(s))
}

/// `s` without the white space at either end.
pub fn trim(s: &str) -> (t: String)
    ensures
        t@ == trimmed(s@),
{
    let chars = to_chars(s);
    let mut from: usize = 0;
    assert(s@.skip(0) =~= s@);
    while from < chars.len() && space(chars[from])
        invariant
            chars@ == s@,
            from <= chars.len(),
            trim_start(s@) == trim_start(s@.skip(from as int)),
        decreases chars.len() - from,
    {
        assert(s@.skip(from as int).drop_first() =~= s@.skip(from + 1));
        from = from + 1;
    }
    let ghost rest = s@.skip(from as int);
    assert(trim_start(s@) == rest);
    let mut to: usize = chars.len();
    assert(s@.subrange(from as int, to as int) =~= rest);
    while to > from && space(chars[to - 1])
        invariant
            chars@ == s@,
            from <= to <= chars.len(),
            trim_end(rest) == trim_end(s@.subrange(from as int, to as int)),
        decreases to - from,
    {
        assert(s@.subrange(from as int, to as int).drop_last() =~= s@.subrange(
            from as int,
            to - 1,
        ));
        to = to - 1;
    }
    from_chars(chars.as_slice(), from, to)
}

/// `s` without the run of `c` at its end.
pub open spec fn strip_end(s: Seq<char>, c: char) -> Seq<char>
    decreases s.len(),
{
    if s.len() > 0 && s.last() == c {
        strip_end(s.drop_last(), c)
    } else {
        s
    }
}

/// `s` without the run of `c` at its start.
pub open spec fn strip_start(s: Seq<char>, c: char) -> Seq<char>
    decreases s.len(),
{
    if s.len() > 0 && s[0] == c {
        strip_start(s.drop_first(), c)
    } else {
        s
    }
}

/// `s` without the run of `c` at its end.
pub fn trim_end_matches(s: &str, c: char) -> (t: String)
    ensures
        t@ == strip_end(s@, c),
{
    let chars = to_chars(s);
    let mut to: usize = chars.len();
    assert(s@.take(to as int) =~= s@);
    while to > 0 && chars[to - 1] == c
        invariant
            chars@ == s@,
            to <= chars.len(),
            strip_end(s@, c) == strip_end(s@.take(to as int), c),
        decreases to,
    {
        assert(s@.take(to as int).drop_last() =~= s@.take(to - 1));
        to = to - 1;
    }
    let t = from_chars(chars.as_slice(), 0, to);
    assert(s@.subrange(0, to as int) =~= s@.take(to as int));
    t
}

/// `s` without the run of `c` at its start.
pub fn trim_start_matches(s: &str, c: char) -> (t: String)
    ensures
        t@ == strip_start(s@, c),
{
    let chars = to_chars(s);
    let mut from: usize = 0;
    assert(s@.skip(0) =~= s@);
    while from < chars.len() && chars[from] == c
        invariant
            chars@ == s@,
            from <= chars.len(),
            strip_start(s@, c) == strip_start(s@.skip(from as int), c),
        decreases chars.len() - from,
    {
        assert(s@.skip(from as int).drop_first() =~= s@.skip(from + 1));
        from = from + 1;
    }
    let t = from_chars(chars.as_slice(), from, chars.len());
    assert(s@.subrange(from as int, s@.len() as int) =~= s@.skip(from as int));
    t
}

/// Trimming leaves a text alone that has no white space at either end.
pub proof fn lemma_trim_keeps(s: Seq<char>)
    requires
        s.len() > 0 ==> !is_space(s[0]) && !is_space(s.last()),
    ensures
        trimmed(s) == s,
{
}

/// A text begins with `prefix` exactly where it is `prefix` and something behind it.
pub proof fn law_prefix_is_followed_by_the_rest(s: Seq<char>, prefix: Seq<char>)
    ensures
        has_prefix(s, prefix) <==> exists|rest: Seq<char>| s == #[trigger] (prefix + rest),
{
    if has_prefix(s, prefix) {
        assert(s =~= prefix + s.skip(prefix.len() as int));
    }
    if exists|rest: Seq<char>| s == #[trigger] (prefix + rest) {
        let rest = choose|rest: Seq<char>| s == #[trigger] (prefix + rest);
        assert((prefix + rest).take(prefix.len() as int) =~= prefix);
    }
}

/// A text ends with `suffix` exactly where it is something and `suffix` behind it.
pub proof fn law_suffix_follows_the_rest(s: Seq<char>, suffix: Seq<char>)
    ensures
        has_suffix(s, suffix) <==> exists|rest: Seq<char>| s == #[trigger] (rest + suffix),
{
    if has_suffix(s, suffix) {
        assert(s =~= s.take(s.len() - suffix.len()) + suffix);
    }
    if exists|rest: Seq<char>| s == #[trigger] (rest + suffix) {
        let rest = choose|rest: Seq<char>| s == #[trigger] (rest + suffix);
        assert((rest + suffix).skip(rest.len() as int) =~= suffix);
    }
}

/// Whether all of a text is white space.
pub open spec fn all_space(s: Seq<char>) -> bool {
    forall|i: int| 0 <= i < s.len() ==> is_space(#[trigger] s[i])
}

/// Trimming takes white space away and nothing else: a text is its trimmed form between
/// two runs of white space.
pub proof fn law_trim_takes_only_space(before: Seq<char>, s: Seq<char>, after: Seq<char>)
    requires
        all_space(before),
        all_space(after),
        s.len() > 0 ==> !is_space(s[0]) && !is_space(s.last()),
        s.len() == 0 ==> after.len() == 0,
    ensures
        trimmed(before + s + after) == s,
{
    lemma_trim_start_takes(before, s + after);
    assert(before + s + after =~= before + (s + after));
    assert(trim_start(s + after) == s + after) by {
        if s.len() > 0 {
            assert((s + after)[0] == s[0]);
        }
    }
    lemma_trim_end_takes(s, after);
}

proof fn lemma_trim_start_takes(before: Seq<char>, s: Seq<char>)
    requires
        all_space(before),
    ensures
        trim_start(before + s) == trim_start(s),
    decreases before.len(),
{
    if before.len() > 0 {
        assert(is_space(before[0]));
        assert((before + s)[0] == before[0]);
        assert((before + s).drop_first() =~= before.drop_first() + s);
        assert forall|i: int| 0 <= i < before.drop_first().len() implies is_space(
            #[trigger] before.drop_first()[i],
        ) by {
            assert(is_space(before[i + 1]));
        }
        lemma_trim_start_takes(before.drop_first(), s);
    } else {
        assert(before + s =~= s);
    }
}

proof fn lemma_trim_end_takes(s: Seq<char>, after: Seq<char>)
    requires
        all_space(after),
        s.len() > 0 ==> !is_space(s.last()),
    ensures
        trim_end(s + after) == s,
    decreases after.len(),
{
    if after.len() > 0 {
        assert(is_space(after[after.len() - 1]));
        assert((s + after).last() == after.last());
        assert((s + after).drop_last() =~= s + after.drop_last());
        assert forall|i: int| 0 <= i < after.drop_last().len() implies is_space(
            #[trigger] after.drop_last()[i],
        ) by {
            assert(is_space(after[i]));
        }
        lemma_trim_end_takes(s, after.drop_last());
    } else {
        assert(s + after =~= s);
    }
}

/// Stripping takes exactly the run of one character at an end.
pub proof fn law_strip_takes_the_run(s: Seq<char>, c: char, n: nat)
    requires
        s.len() > 0 ==> s[0] != c && s.last() != c,
    ensures
        strip_end(s + Seq::new(n, |i: int| c), c) == s,
        strip_start(Seq::new(n, |i: int| c) + s, c) == s,
    decreases n,
{
    let run = Seq::new(n, |i: int| c);
    if n > 0 {
        let less = Seq::new((n - 1) as nat, |i: int| c);
        law_strip_takes_the_run(s, c, (n - 1) as nat);
        assert((s + run).drop_last() =~= s + less);
        assert((s + run).last() == c);
        assert((run + s).drop_first() =~= less + s);
        assert((run + s)[0] == c);
    } else {
        assert(s + run =~= s);
        assert(run + s =~= s);
    }
}

} // verus!
