//! Text handling shared by the configuration, ticker and URL code.

use vstd::prelude::*;
use vstd::arithmetic::power::pow;

verus! {

/// The text that each string of a list holds.
pub open spec fn texts(v: Seq<String>) -> Seq<Seq<char>> {
    v.map_values(|s: String| s@)
}

/// What `str::to_lowercase` returns for a text (full Unicode case mapping).
pub uninterp spec fn lowercase(s: Seq<char>) -> Seq<char>;

/// What `str::to_uppercase` returns for a text (full Unicode case mapping).
pub uninterp spec fn uppercase(s: Seq<char>) -> Seq<char>;

/// Whether `char::is_whitespace` holds of a character (the Unicode `White_Space` property).
pub uninterp spec fn is_whitespace(c: char) -> bool;

/// Calls `str::to_lowercase`; its result is named `lowercase` of the input.
#[verifier::external_body]
pub(crate) fn to_lower(s: &str) -> (r: String)
    ensures
        r@ == lowercase(s@),
{
    s.to_lowercase()
}

/// Calls `str::to_uppercase`; its result is named `uppercase` of the input.
#[verifier::external_body]
pub(crate) fn to_upper(s: &str) -> (r: String)
    ensures
        r@ == uppercase(s@),
{
    s.to_uppercase()
}

/// Calls `char::is_whitespace`; its result is named `is_whitespace` of the character.
#[verifier::external_body]
fn char_is_whitespace(c: char) -> (b: bool)
    ensures
        b == is_whitespace(c),
{
    c.is_whitespace()
}

/// Calls `String::push`, which appends one character to the string.
#[verifier::external_body]
fn push_char(s: &mut String, c: char)
    ensures
        final(s)@ == old(s)@.push(c),
{
    s.push(c);
}

/// The characters of a string, in order.
pub fn chars_of(s: &str) -> (v: Vec<char>)
    ensures
        v@ == s@,
{
    let mut v: Vec<char> = Vec::new();
    for c in it: s.chars()
        invariant
            it.seq() == s@,
            v@ == s@.take(it.index() as int),
    {
        v.push(c);
        assert(s@.take(it.index() + 1) =~= s@.take(it.index() as int).push(c));
    }
    assert(v@ =~= s@);
    v
}

/// A copy of a list of strings.
pub fn copy_strings(v: &Vec<String>) -> (r: Vec<String>)
    ensures
        r@ == v@,
{
    let mut r: Vec<String> = Vec::new();
    let mut i: usize = 0;
    while i < v.len()
        invariant
            i <= v@.len(),
            r@ == v@.take(i as int),
        decreases v.len() - i,
    {
        r.push(v[i].clone());
        assert(r@ =~= v@.take(i + 1));
        i = i + 1;
    }
    assert(r@ =~= v@);
    r
}

/// The string made of the characters `v[lo..hi]`.
pub fn string_of_range(v: &Vec<char>, lo: usize, hi: usize) -> (s: String)
    requires
        lo <= hi <= v.len(),
    ensures
        s@ == v@.subrange(lo as int, hi as int),
{
    let mut s = String::new();
    let mut i = lo;
    while i < hi
        invariant
            lo <= i <= hi <= v.len(),
            s@ == v@.subrange(lo as int, i as int),
        decreases hi - i,
    {
        push_char(&mut s, v[i]);
        assert(v@.subrange(lo as int, i + 1) =~= v@.subrange(lo as int, i as int).push(v@[i as int]));
        i = i + 1;
    }
    s
}


/// `s` with its leading whitespace removed.
pub open spec fn trim_start(s: Seq<char>) -> Seq<char>
    decreases s.len(),
{
    if s.len() > 0 && is_whitespace(s[0]) {
        trim_start(s.drop_first())
    } else {
        s
    }
}

/// `s` with its trailing whitespace removed.
pub open spec fn trim_end(s: Seq<char>) -> Seq<char>
    decreases s.len(),
{
    if s.len() > 0 && is_whitespace(s.last()) {
        trim_end(s.drop_last())
    } else {
        s
    }
}

/// `s` with leading and trailing whitespace removed, as `str::trim` does.
pub open spec fn trimmed(s: Seq<char>) -> Seq<char> {
    trim_end(trim_start(s))
}

/// `s` with every trailing `c` removed, as `str::trim_end_matches(c)` does.
pub open spec fn strip_trailing(s: Seq<char>, c: char) -> Seq<char>
    decreases s.len(),
{
    if s.len() > 0 && s.last() == c {
        strip_trailing(s.drop_last(), c)
    } else {
        s
    }
}

/// The pieces of `s` between occurrences of `sep`, as `str::split(sep)` yields them:
/// always at least one piece, and an empty piece around every separator at an end.
pub open spec fn split_on(s: Seq<char>, sep: char) -> Seq<Seq<char>>
    decreases s.len(),
{
    if s.len() == 0 {
        seq![Seq::empty()]
    } else {
        let parts = split_on(s.drop_last(), sep);
        if s.last() == sep {
            parts.push(Seq::empty())
        } else {
            parts.update(parts.len() - 1, parts.last().push(s.last()))
        }
    }
}

/// The pieces joined with `sep` between each two, as `[String]::join(sep)` does.
pub open spec fn joined(parts: Seq<Seq<char>>, sep: Seq<char>) -> Seq<char>
    decreases parts.len(),
{
    if parts.len() == 0 {
        Seq::empty()
    } else if parts.len() == 1 {
        parts[0]
    } else {
        joined(parts.drop_last(), sep) + sep + parts.last()
    }
}

/// Stripping trailing `c` keeps a prefix of `s` that does not end in `c`, and
/// everything removed is `c`.
pub proof fn law_strip_trailing_removes_the_trailing_run(s: Seq<char>, c: char)
    ensures
        strip_trailing(s, c).len() <= s.len(),
        strip_trailing(s, c) == s.take(strip_trailing(s, c).len() as int),
        forall|j: int| strip_trailing(s, c).len() <= j < s.len() ==> s[j] == c,
        strip_trailing(s, c).len() > 0 ==> strip_trailing(s, c).last() != c,
    decreases s.len(),
{
    if s.len() > 0 && s.last() == c {
        let pre = s.drop_last();
        law_strip_trailing_removes_the_trailing_run(pre, c);
        let r = strip_trailing(pre, c);
        assert(s.take(r.len() as int) =~= pre.take(r.len() as int));
        assert forall|j: int| r.len() <= j < s.len() implies s[j] == c by {
            if j < pre.len() {
                assert(s[j] == pre[j]);
            }
        }
    } else {
        assert(s.take(s.len() as int) =~= s);
    }
}

/// Trimming the start keeps a suffix of `s` that does not start with whitespace,
/// and everything removed is whitespace.
pub proof fn law_trim_start_removes_the_leading_whitespace(s: Seq<char>)
    ensures
        trim_start(s).len() <= s.len(),
        trim_start(s) == s.skip(s.len() - trim_start(s).len()),
        forall|j: int| 0 <= j < s.len() - trim_start(s).len() ==> is_whitespace(#[trigger] s[j]),
        trim_start(s).len() > 0 ==> !is_whitespace(trim_start(s)[0]),
    decreases s.len(),
{
    if s.len() > 0 && is_whitespace(s[0]) {
        let rest = s.drop_first();
        law_trim_start_removes_the_leading_whitespace(rest);
        let r = trim_start(rest);
        assert(s.skip(s.len() - r.len()) =~= rest.skip(rest.len() - r.len()));
        assert forall|j: int| 0 <= j < s.len() - r.len() implies is_whitespace(#[trigger] s[j]) by {
            if j > 0 {
                assert(s[j] == rest[j - 1]);
            }
        }
    } else {
        assert(s.skip(0) =~= s);
    }
}

/// Trimming the end keeps a prefix of `s` that does not end with whitespace, and
/// everything removed is whitespace.
pub proof fn law_trim_end_removes_the_trailing_whitespace(s: Seq<char>)
    ensures
        trim_end(s).len() <= s.len(),
        trim_end(s) == s.take(trim_end(s).len() as int),
        forall|j: int| trim_end(s).len() <= j < s.len() ==> is_whitespace(#[trigger] s[j]),
        trim_end(s).len() > 0 ==> !is_whitespace(trim_end(s).last()),
    decreases s.len(),
{
    if s.len() > 0 && is_whitespace(s.last()) {
        let pre = s.drop_last();
        law_trim_end_removes_the_trailing_whitespace(pre);
        let r = trim_end(pre);
        assert(s.take(r.len() as int) =~= pre.take(r.len() as int));
        assert forall|j: int| r.len() <= j < s.len() implies is_whitespace(#[trigger] s[j]) by {
            if j < pre.len() {
                assert(s[j] == pre[j]);
            }
        }
    } else {
        assert(s.take(s.len() as int) =~= s);
    }
}

/// The pieces of a split hold no separator, and joined back with the separator
/// they give the text again.
pub proof fn law_split_pieces_rejoin(s: Seq<char>, sep: char)
    ensures
        split_on(s, sep).len() >= 1,
        forall|i: int| 0 <= i < split_on(s, sep).len() ==> !(#[trigger] split_on(s, sep)[i]).contains(sep),
        joined(split_on(s, sep), seq![sep]) == s,
    decreases s.len(),
{
    if s.len() == 0 {
        assert(joined(split_on(s, sep), seq![sep]) == Seq::<char>::empty());
        assert(s =~= Seq::<char>::empty());
    } else {
        let pre = s.drop_last();
        let c = s.last();
        law_split_pieces_rejoin(pre, sep);
        let parts = split_on(pre, sep);
        let n = parts.len();
        if c == sep {
            let now = parts.push(Seq::empty());
            assert(now.drop_last() =~= parts);
            assert forall|i: int| 0 <= i < now.len() implies !(#[trigger] now[i]).contains(sep) by {
                if i < n {
                    assert(now[i] == parts[i]);
                } else {
                    assert(now[i] =~= Seq::<char>::empty());
                }
            }
            assert(s =~= pre + seq![sep] + Seq::<char>::empty());
        } else {
            let last = parts.last().push(c);
            let now = parts.update(n - 1, last);
            assert forall|i: int| 0 <= i < now.len() implies !(#[trigger] now[i]).contains(sep) by {
                if i < n - 1 {
                    assert(now[i] == parts[i]);
                } else {
                    assert(!parts[n - 1].contains(sep));
                    if last.contains(sep) {
                        let k = choose|k: int| 0 <= k < last.len() && last[k] == sep;
                        if k < parts[n - 1].len() {
                            assert(parts[n - 1][k] == sep);
                        }
                    }
                }
            }
            if n == 1 {
                assert(joined(parts, seq![sep]) == parts[0]);
                assert(s =~= parts[0].push(c));
            } else {
                assert(now.drop_last() =~= parts.drop_last());
                assert(joined(parts, seq![sep]) == joined(parts.drop_last(), seq![sep]) + seq![sep] + parts.last());
                let j = joined(parts.drop_last(), seq![sep]);
                assert(pre == j + seq![sep] + parts.last());
                assert(s =~= pre.push(c));
                assert(s =~= j + seq![sep] + last);
                assert(now.last() == last);
                assert(joined(now, seq![sep]) == joined(now.drop_last(), seq![sep]) + seq![sep] + now.last());
            }
        }
    }
}

/// The value of a digit run is that of its leading part shifted by the length of
/// its trailing part, plus the trailing part's value; a single digit is worth
/// itself.
pub proof fn law_digits_value_is_positional(a: Seq<char>, b: Seq<char>)
    ensures
        digits_value(a + b) == digits_value(a) * pow(10, b.len()) + digits_value(b),
        b.len() == 1 ==> digits_value(b) == ((b[0] as u32) - 48) as nat,
    decreases b.len(),
{
    reveal(pow);
    if b.len() == 0 {
        assert(a + b =~= a);
        assert(pow(10, 0) == 1);
    } else {
        let pre = b.drop_last();
        law_digits_value_is_positional(a, pre);
        assert((a + b).drop_last() =~= a + pre);
        assert((a + b).last() == b.last());
        let d = ((b.last() as u32) - 48) as nat;
        let x = digits_value(a);
        let p = pow(10, pre.len());
        assert(pow(10, b.len()) == 10 * p);
        assert((x * p + digits_value(pre)) * 10 + d == x * (10 * p) + (digits_value(pre) * 10 + d))
            by (nonlinear_arith);
        if b.len() == 1 {
            assert(pre.len() == 0);
            assert(b.last() == b[0]);
        }
    }
}

/// Trims leading and trailing whitespace, as `str::trim` does.
pub fn trim(s: &str) -> (r: String)
    ensures
        r@ == trimmed(s@),
{
    let v = chars_of(s);
    let len = v.len();
    let mut lo: usize = 0;
    assert(v@.subrange(0, len as int) =~= v@);
    while lo < len && char_is_whitespace(v[lo])
        invariant
            lo <= len == v@.len(),
            trim_start(v@) == trim_start(v@.subrange(lo as int, len as int)),
        decreases len - lo,
    {
        assert(v@.subrange(lo as int, len as int).drop_first() =~= v@.subrange(lo + 1, len as int));
        lo = lo + 1;
    }
    assert(trim_start(v@.subrange(lo as int, len as int)) == v@.subrange(lo as int, len as int));
    let mut hi: usize = len;
    while hi > lo && char_is_whitespace(v[hi - 1])
        invariant
            lo <= hi <= len == v@.len(),
            trimmed(v@) == trim_end(v@.subrange(lo as int, hi as int)),
        decreases hi,
    {
        assert(v@.subrange(lo as int, hi as int).drop_last() =~= v@.subrange(lo as int, hi - 1));
        hi = hi - 1;
    }
    assert(v@ =~= s@);
    string_of_range(&v, lo, hi)
}

/// Removes every trailing `c`, as `str::trim_end_matches(c)` does with a character.
pub fn strip_trailing_char(s: &str, c: char) -> (r: String)
    ensures
        r@ == strip_trailing(s@, c),
{
    let v = chars_of(s);
    let mut hi: usize = v.len();
    assert(v@.subrange(0, hi as int) =~= v@);
    while hi > 0 && v[hi - 1] == c
        invariant
            hi <= v@.len(),
            v@ == s@,
            strip_trailing(s@, c) == strip_trailing(v@.subrange(0, hi as int), c),
        decreases hi,
    {
        assert(v@.subrange(0, hi as int).drop_last() =~= v@.subrange(0, hi - 1));
        hi = hi - 1;
    }
    string_of_range(&v, 0, hi)
}

/// Splits `s` at every `sep`, as `str::split(sep)` does with a character.
pub fn split_char(s: &str, sep: char) -> (parts: Vec<String>)
    ensures
        texts(parts@) == split_on(s@, sep),
{
    let v = chars_of(s);
    let mut parts: Vec<String> = Vec::new();
    let mut cur = String::new();
    let mut i: usize = 0;
    assert(v@.take(0) =~= Seq::<char>::empty());
    assert(texts(parts@).push(cur@) =~= split_on(v@.take(0), sep));
    while i < v.len()
        invariant
            i <= v@.len(),
            v@ == s@,
            texts(parts@).push(cur@) == split_on(v@.take(i as int), sep),
        decreases v.len() - i,
    {
        let c = v[i];
        let ghost prefix = v@.take(i as int);
        assert(v@.take(i + 1).drop_last() =~= prefix);
        assert(v@.take(i + 1).last() == c);
        if c == sep {
            let done = cur;
            parts.push(done);
            cur = String::new();
            assert(texts(parts@).push(cur@) =~= split_on(prefix, sep).push(Seq::empty()));
        } else {
            let ghost before = cur@;
            push_char(&mut cur, c);
            assert(texts(parts@).push(cur@) =~= split_on(prefix, sep).update(
                split_on(prefix, sep).len() - 1, before.push(c)));
        }
        i = i + 1;
    }
    parts.push(cur);
    assert(v@.take(v@.len() as int) =~= v@);
    assert(texts(parts@) =~= split_on(s@, sep));
    parts
}

/// Joins the strings with `sep` between each two, as `[String]::join(sep)` does.
pub fn join_strings(list: &Vec<String>, sep: &str) -> (r: String)
    ensures
        r@ == joined(texts(list@), sep@),
{
    let mut r = String::new();
    let mut i: usize = 0;
    assert(texts(list@).take(0) =~= Seq::<Seq<char>>::empty());
    while i < list.len()
        invariant
            i <= list@.len(),
            r@ == joined(texts(list@).take(i as int), sep@),
        decreases list.len() - i,
    {
        assert(texts(list@).take(i + 1).drop_last() =~= texts(list@).take(i as int));
        if i > 0 {
            r.append(sep);
        }
        r.append(list[i].as_str());
        i = i + 1;
    }
    assert(texts(list@).take(list@.len() as int) =~= texts(list@));
    r
}

/// Whether the character is an ASCII decimal digit.
pub open spec fn is_digit(c: char) -> bool {
    48 <= (c as u32) <= 57
}

/// The value of a run of decimal digits.
pub open spec fn digits_value(s: Seq<char>) -> nat
    decreases s.len(),
{
    if s.len() == 0 {
        0
    } else {
        digits_value(s.drop_last()) * 10 + ((s.last() as u32) - 48) as nat
    }
}

/// The digits of an unsigned number: the text after one optional leading `+`.
pub open spec fn unsigned_digits(s: Seq<char>) -> Seq<char> {
    if s.len() > 0 && s[0] == '+' {
        s.drop_first()
    } else {
        s
    }
}

/// What parsing `s` as an unsigned integer no greater than `max` gives, as the
/// `FromStr` impls of the unsigned integer types do: an optional `+`, then one or
/// more decimal digits whose value fits.
pub open spec fn parsed_unsigned(s: Seq<char>, max: nat) -> Option<nat> {
    let d = unsigned_digits(s);
    if d.len() > 0 && (forall|i: int| 0 <= i < d.len() ==> is_digit(#[trigger] d[i]))
        && digits_value(d) <= max {
        Some(digits_value(d))
    } else {
        None
    }
}

/// Parses an unsigned decimal number no greater than `max`.
pub fn parse_unsigned(s: &str, max: u64) -> (r: Option<u64>)
    ensures
        match parsed_unsigned(s@, max as nat) {
            Some(n) => r == Some(n as u64),
            None => r is None,
        },
{
    let v = chars_of(s);
    let start: usize = if v.len() > 0 && v[0] == '+' { 1 } else { 0 };
    let ghost d = unsigned_digits(s@);
    assert(d =~= v@.subrange(start as int, v@.len() as int));
    if start >= v.len() {
        return None;
    }
    let mut value: u64 = 0;
    let mut too_big = false;
    let mut i = start;
    assert(d.take(0) =~= Seq::<char>::empty());
    while i < v.len()
        invariant
            start <= i <= v@.len(),
            d == v@.subrange(start as int, v@.len() as int),
            d == unsigned_digits(s@),
            forall|j: int| 0 <= j < i - start ==> is_digit(#[trigger] d[j]),
            too_big <==> digits_value(d.take(i - start)) > max,
            !too_big ==> value == digits_value(d.take(i - start)),
        decreases v.len() - i,
    {
        let c = v[i];
        let code = c as u32;
        if code < 48 || code > 57 {
            assert(d[i - start] == c);
            assert(!is_digit(d[i - start]));
            assert(parsed_unsigned(s@, max as nat) is None);
            return None;
        }
        let ghost k = i - start;
        assert(d.take(k + 1).drop_last() =~= d.take(k));
        assert(d.take(k + 1).last() == c);
        let digit = (code - 48) as u64;
        if !too_big {
            let next: u128 = (value as u128) * 10 + (digit as u128);
            if next > max as u128 {
                too_big = true;
            } else {
                value = next as u64;
            }
        }
        i = i + 1;
    }
    assert(d.take(d.len() as int) =~= d);
    if too_big {
        None
    } else {
        Some(value)
    }
}

} // verus!
