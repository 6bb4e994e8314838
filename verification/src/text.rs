//! Text as character sequences: the searches, trims and spellings that the
//! other modules share.

use vstd::prelude::*;

verus! {

/// The characters that Unicode gives the property `White_Space`.
pub open spec fn is_white(c: char) -> bool {
    ||| '\u{9}' <= c <= '\u{d}'
    ||| c == ' '
    ||| c == '\u{85}'
    ||| c == '\u{a0}'
    ||| c == '\u{1680}'
    ||| '\u{2000}' <= c <= '\u{200a}'
    ||| c == '\u{2028}'
    ||| c == '\u{2029}'
    ||| c == '\u{202f}'
    ||| c == '\u{205f}'
    ||| c == '\u{3000}'
}

/// True when `s` holds nothing but white space.
pub open spec fn is_blank(s: Seq<char>) -> bool {
    forall|i: int| 0 <= i < s.len() ==> is_white(#[trigger] s[i])
}

/// `s` without its leading white space.
pub open spec fn trim_start(s: Seq<char>) -> Seq<char>
    decreases s.len(),
{
    if s.len() > 0 && is_white(s[0]) {
        trim_start(s.drop_first())
    } else {
        s
    }
}

/// `s` with every trailing copy of `pattern` removed.
pub open spec fn trim_end_matches(s: Seq<char>, pattern: Seq<char>) -> Seq<char>
    decreases s.len(),
{
    if pattern.len() > 0 && pattern.is_suffix_of(s) {
        trim_end_matches(s.take(s.len() - pattern.len()), pattern)
    } else {
        s
    }
}

/// What follows the last `c` in `s`; the whole of `s` where it holds no `c`.
pub open spec fn after_last(s: Seq<char>, c: char) -> Seq<char>
    decreases s.len(),
{
    if s.len() == 0 || s.last() == c {
        Seq::<char>::empty()
    } else {
        after_last(s.drop_last(), c).push(s.last())
    }
}

/// What precedes the first `c` in `s`; the whole of `s` where it holds no `c`.
pub open spec fn before_first(s: Seq<char>, c: char) -> Seq<char>
    decreases s.len(),
{
    if s.len() == 0 || s[0] == c {
        Seq::<char>::empty()
    } else {
        seq![s[0]] + before_first(s.drop_first(), c)
    }
}

/// `c` with the ASCII capitals made small.
pub open spec fn ascii_lower(c: char) -> char {
    if 'A' <= c <= 'Z' {
        (c as u8 + 32) as char
    } else {
        c
    }
}

/// True when `a` and `b` differ at most in the case of ASCII letters.
pub open spec fn same_ignoring_ascii_case(a: Seq<char>, b: Seq<char>) -> bool {
    a.map_values(|c: char| ascii_lower(c)) == b.map_values(|c: char| ascii_lower(c))
}

/// The digit that stands for `d`.
pub open spec fn digit(d: nat) -> char {
    ('0' as nat + d) as char
}

/// `n` in decimal, without leading zeros.
pub open spec fn decimal(n: nat) -> Seq<char>
    decreases n,
{
    if n < 10 {
        seq![digit(n)]
    } else {
        decimal(n / 10).push(digit(n % 10))
    }
}

/// Different numbers have different decimal spellings.
pub proof fn law_decimal_injective(a: nat, b: nat)
    requires
        decimal(a) == decimal(b),
    ensures
        a == b,
    decreases a,
{
    lemma_decimal_len(a);
    lemma_decimal_len(b);
    assert(decimal(a).last() == digit(a % 10));
    assert(decimal(b).last() == digit(b % 10));
    if a >= 10 || b >= 10 {
        assert(decimal(a / 10) == decimal(a).drop_last());
        assert(decimal(b / 10) == decimal(b).drop_last());
        law_decimal_injective(a / 10, b / 10);
    }
}

proof fn lemma_decimal_len(n: nat)
    ensures
        decimal(n).len() >= 1,
        n < 10 <==> decimal(n).len() == 1,
    decreases n,
{
    if n >= 10 {
        lemma_decimal_len(n / 10);
    }
}

/// The characters of `s`.
pub fn to_chars(s: &str) -> (r: Vec<char>)
    ensures
        r@ == s@,
{
    let mut r: Vec<char> = Vec::new();
    for c in it: s.chars()
        invariant
            it.seq() == s@,
            r@ == s@.take(it.index() as int),
    {
        r.push(c);
    }
    proof {
        assert(s@.take(s@.len() as int) == s@);
    }
    r
}

/// True when the two texts are equal.
pub fn str_eq(a: &str, b: &str) -> (r: bool)
    ensures
        r == (a@ == b@),
{
    a.to_owned() == b.to_owned()
}

/// `a` followed by `b`.
pub fn join2(a: &str, b: &str) -> (r: String)
    ensures
        r@ == a@ + b@,
{
    let mut r: String = a.to_owned();
    r.append(b);
    r
}

/// `a`, `b` and `c`, one after the other.
pub fn join3(a: &str, b: &str, c: &str) -> (r: String)
    ensures
        r@ == a@ + b@ + c@,
{
    let mut r: String = a.to_owned();
    r.append(b);
    r.append(c);
    r
}

/// True when `s` begins with `prefix`.
pub fn starts_with(s: &str, prefix: &str) -> (r: bool)
    ensures
        r == prefix@.is_prefix_of(s@),
{
    let n: usize = s.unicode_len();
    let m: usize = prefix.unicode_len();
    if m <= n {
        let head = s.substring_char(0, m);
        proof {
            assert(s@.subrange(0, m as int) == s@.take(m as int));
        }
        str_eq(head, prefix)
    } else {
        false
    }
}

/// `s` without its first `count` characters.
pub fn skip_chars(s: &str, count: usize) -> (r: String)
    requires
        count <= s@.len(),
    ensures
        r@ == s@.skip(count as int),
{
    let n: usize = s.unicode_len();
    let r: String = s.substring_char(count, n).to_owned();
    proof {
        assert(r@ =~= s@.skip(count as int));
    }
    r
}

/// True when `c` is white space.
pub fn char_is_white(c: char) -> (r: bool)
    ensures
        r == is_white(c),
{
    ('\u{9}' <= c && c <= '\u{d}') || c == ' ' || c == '\u{85}' || c == '\u{a0}' || c == '\u{1680}'
        || ('\u{2000}' <= c && c <= '\u{200a}') || c == '\u{2028}' || c == '\u{2029}' || c
        == '\u{202f}' || c == '\u{205f}' || c == '\u{3000}'
}

/// How many characters of white space `s` begins with.
fn leading_white(s: &str) -> (r: usize)
    ensures
        r <= s@.len(),
        trim_start(s@) == s@.skip(r as int),
        is_blank(s@) <==> r == s@.len(),
{
    let chars: Vec<char> = to_chars(s);
    let mut i: usize = 0;
    proof {
        assert(s@.skip(0) == s@);
    }
    while i < chars.len() && char_is_white(chars[i])
        invariant
            chars@ == s@,
            i <= s@.len(),
            forall|j: int| 0 <= j < i ==> is_white(#[trigger] s@[j]),
            trim_start(s@) == trim_start(s@.skip(i as int)),
        decreases chars.len() - i,
    {
        proof {
            assert(s@.skip(i as int).drop_first() == s@.skip(i + 1));
        }
        i += 1;
    }
    proof {
        assert(i < s@.len() ==> s@.skip(i as int)[0] == s@[i as int]);
    }
    i
}

/// True when `s` holds nothing but white space.
pub fn str_is_blank(s: &str) -> (r: bool)
    ensures
        r == is_blank(s@),
{
    leading_white(s) == s.unicode_len()
}

/// `s` without its leading white space.
pub fn str_trim_start(s: &str) -> (r: String)
    ensures
        r@ == trim_start(s@),
{
    let n: usize = leading_white(s);
    skip_chars(s, n)
}

/// `s` with every trailing copy of `pattern` removed.
pub fn str_trim_end_matches(s: &str, pattern: &str) -> (r: String)
    ensures
        r@ == trim_end_matches(s@, pattern@),
{
    let m: usize = pattern.unicode_len();
    let mut end: usize = s.unicode_len();
    proof {
        assert(s@.take(end as int) == s@);
    }
    if m > 0 {
        loop
            invariant
                m == pattern@.len(),
                m > 0,
                end <= s@.len(),
                trim_end_matches(s@, pattern@) == trim_end_matches(s@.take(end as int), pattern@),
            ensures
                !pattern@.is_suffix_of(s@.take(end as int)),
            decreases end,
        {
            if end < m {
                break;
            }
            let tail = s.substring_char(end - m, end);
            proof {
                let cut = s@.take(end as int);
                assert(tail@ == cut.subrange(end - m, end as int));
                assert(cut.take(end - m) == s@.take(end - m));
            }
            if !str_eq(tail, pattern) {
                break;
            }
            end = end - m;
        }
    }
    let r: String = s.substring_char(0, end).to_owned();
    proof {
        assert(r@ == s@.take(end as int));
    }
    r
}

/// What follows the last `c` in `s`; the whole of `s` where it holds no `c`.
pub fn str_after_last(s: &str, c: char) -> (r: String)
    ensures
        r@ == after_last(s@, c),
{
    let chars: Vec<char> = to_chars(s);
    let n: usize = chars.len();
    let mut start: usize = n;
    proof {
        assert(s@.take(n as int) == s@);
        assert(s@.skip(n as int) == Seq::<char>::empty());
        assert(after_last(s@.take(n as int), c) + s@.skip(n as int) == after_last(s@, c));
    }
    while start > 0 && chars[start - 1] != c
        invariant
            chars@ == s@,
            n == s@.len(),
            start <= n,
            after_last(s@, c) == after_last(s@.take(start as int), c) + s@.skip(start as int),
        decreases start,
    {
        proof {
            let head = s@.take(start as int);
            assert(head.drop_last() == s@.take(start - 1));
            assert(head.last() == s@[start - 1]);
            assert(seq![s@[start - 1]] + s@.skip(start as int) == s@.skip(start - 1));
            assert(after_last(head.drop_last(), c).push(head.last()) + s@.skip(start as int)
                == after_last(head.drop_last(), c) + (seq![head.last()] + s@.skip(start as int)));
        }
        start -= 1;
    }
    proof {
        let head = s@.take(start as int);
        if start > 0 {
            assert(head.last() == c);
        }
        assert(after_last(head, c) == Seq::<char>::empty());
        assert(Seq::<char>::empty() + s@.skip(start as int) == s@.skip(start as int));
    }
    skip_chars(s, start)
}

/// What precedes the first `c` in `s`; the whole of `s` where it holds no `c`.
pub fn str_before_first(s: &str, c: char) -> (r: String)
    ensures
        r@ == before_first(s@, c),
{
    let chars: Vec<char> = to_chars(s);
    let n: usize = chars.len();
    let mut end: usize = 0;
    proof {
        assert(s@.skip(0) == s@);
        assert(s@.take(0) + before_first(s@, c) == before_first(s@, c));
    }
    while end < n && chars[end] != c
        invariant
            chars@ == s@,
            n == s@.len(),
            end <= n,
            before_first(s@, c) == s@.take(end as int) + before_first(s@.skip(end as int), c),
        decreases n - end,
    {
        proof {
            let tail = s@.skip(end as int);
            assert(tail.drop_first() == s@.skip(end + 1));
            assert(s@.take(end as int) + seq![tail[0]] == s@.take(end + 1));
            assert(s@.take(end as int) + (seq![tail[0]] + before_first(tail.drop_first(), c))
                == (s@.take(end as int) + seq![tail[0]]) + before_first(tail.drop_first(), c));
        }
        end += 1;
    }
    let r: String = s.substring_char(0, end).to_owned();
    proof {
        assert(before_first(s@.skip(end as int), c) == Seq::<char>::empty());
        assert(r@ =~= s@.take(end as int) + Seq::<char>::empty());
    }
    r
}

fn char_ascii_lower(c: char) -> (r: char)
    ensures
        r == ascii_lower(c),
{
    if 'A' <= c && c <= 'Z' {
        (c as u8 + 32) as char
    } else {
        c
    }
}

/// True when `a` and `b` differ at most in the case of ASCII letters.
pub fn str_same_ignoring_ascii_case(a: &str, b: &str) -> (r: bool)
    ensures
        r == same_ignoring_ascii_case(a@, b@),
{
    let x: Vec<char> = to_chars(a);
    let y: Vec<char> = to_chars(b);
    let ghost lx = a@.map_values(|c: char| ascii_lower(c));
    let ghost ly = b@.map_values(|c: char| ascii_lower(c));
    if x.len() != y.len() {
        assert(lx.len() != ly.len());
        return false;
    }
    let mut i: usize = 0;
    while i < x.len()
        invariant
            x@ == a@,
            y@ == b@,
            x@.len() == y@.len(),
            i <= x@.len(),
            lx == a@.map_values(|c: char| ascii_lower(c)),
            ly == b@.map_values(|c: char| ascii_lower(c)),
            forall|j: int| 0 <= j < i ==> #[trigger] lx[j] == ly[j],
        decreases x.len() - i,
    {
        if char_ascii_lower(x[i]) != char_ascii_lower(y[i]) {
            assert(lx[i as int] != ly[i as int]);
            return false;
        }
        i += 1;
    }
    assert(lx =~= ly);
    true
}

/// The digit of `d` as text.
fn digit_text(d: u64) -> (r: String)
    requires
        d < 10,
    ensures
        r@ == seq![digit(d as nat)],
{
    let s: &str = match d {
        0 => "0",
        1 => "1",
        2 => "2",
        3 => "3",
        4 => "4",
        5 => "5",
        6 => "6",
        7 => "7",
        8 => "8",
        _ => "9",
    };
    proof {
        reveal_strlit("0");
        reveal_strlit("1");
        reveal_strlit("2");
        reveal_strlit("3");
        reveal_strlit("4");
        reveal_strlit("5");
        reveal_strlit("6");
        reveal_strlit("7");
        reveal_strlit("8");
        reveal_strlit("9");
        assert(s@ =~= seq![digit(d as nat)]);
    }
    s.to_owned()
}

/// `n` in decimal.
pub fn decimal_text(n: u64) -> (r: String)
    ensures
        r@ == decimal(n as nat),
    decreases n,
{
    if n < 10 {
        digit_text(n)
    } else {
        let mut r: String = decimal_text(n / 10);
        let last: String = digit_text(n % 10);
        r.append(last.as_str());
        proof {
            assert(r@ =~= decimal(n as nat));
        }
        r
    }
}

/// What trimming leaves is the end of the text, and what it takes away is white
/// space, all of it.
pub proof fn law_trim_start(s: Seq<char>)
    ensures
        ({
            let n = s.len() - trim_start(s).len();
            &&& 0 <= n
            &&& trim_start(s) == s.skip(n)
            &&& forall|i: int| 0 <= i < n ==> is_white(#[trigger] s[i])
            &&& n < s.len() ==> !is_white(s[n])
        }),
    decreases s.len(),
{
    if s.len() > 0 && is_white(s[0]) {
        let rest = s.drop_first();
        law_trim_start(rest);
        let n = s.len() - trim_start(s).len();
        assert(rest.skip(n - 1) =~= s.skip(n));
        assert forall|i: int| 0 <= i < n implies is_white(#[trigger] s[i]) by {
            if i > 0 {
                assert(rest[i - 1] == s[i]);
            }
        }
        if n < s.len() {
            assert(rest[n - 1] == s[n]);
        }
    } else {
        assert(s.skip(0) =~= s);
    }
}

/// `pattern`, `count` times over.
pub open spec fn repeated(pattern: Seq<char>, count: nat) -> Seq<char>
    decreases count,
{
    if count == 0 {
        Seq::empty()
    } else {
        repeated(pattern, (count - 1) as nat) + pattern
    }
}

/// What trimming leaves does not end with the pattern, and what it takes away is
/// the pattern, some number of times.
pub proof fn law_trim_end_matches(s: Seq<char>, pattern: Seq<char>) -> (count: nat)
    requires
        pattern.len() > 0,
    ensures
        s == trim_end_matches(s, pattern) + repeated(pattern, count),
        !pattern.is_suffix_of(trim_end_matches(s, pattern)),
    decreases s.len(),
{
    if pattern.is_suffix_of(s) {
        let cut = s.take(s.len() - pattern.len());
        let fewer = law_trim_end_matches(cut, pattern);
        let left = trim_end_matches(s, pattern);
        assert(s =~= cut + pattern);
        assert(left + repeated(pattern, fewer) + pattern =~= left + (repeated(pattern, fewer)
            + pattern));
        fewer + 1
    } else {
        assert(s + Seq::<char>::empty() =~= s);
        0
    }
}

/// Whatever a text ends with, as often as it does: trimming it away leaves what
/// stands before, which does not end so itself.
pub proof fn law_trim_end_finds(text: Seq<char>, pattern: Seq<char>, count: nat)
    requires
        pattern.len() > 0,
        !pattern.is_suffix_of(text),
    ensures
        trim_end_matches(text + repeated(pattern, count), pattern) == text,
    decreases count,
{
    if count == 0 {
        assert(text + repeated(pattern, 0) =~= text);
    } else {
        let fewer = (count - 1) as nat;
        let s = text + repeated(pattern, count);
        law_trim_end_finds(text, pattern, fewer);
        let n = s.len() - pattern.len();
        assert(s.take(n) =~= text + repeated(pattern, fewer));
        assert(s.skip(n) =~= pattern);
    }
}

/// What follows the last `c` is the end of the text, holds no `c`, and either has
/// a `c` right before it or is the whole text.
pub proof fn law_after_last(s: Seq<char>, c: char)
    ensures
        ({
            let n = s.len() - after_last(s, c).len();
            &&& 0 <= n
            &&& after_last(s, c) == s.skip(n)
            &&& forall|i: int| n <= i < s.len() ==> #[trigger] s[i] != c
            &&& n > 0 ==> s[n - 1] == c
        }),
    decreases s.len(),
{
    if s.len() > 0 && s.last() != c {
        let rest = s.drop_last();
        law_after_last(rest, c);
        let n = s.len() - after_last(s, c).len();
        assert(rest.skip(n).push(s.last()) =~= s.skip(n));
        assert forall|i: int| n <= i < s.len() implies #[trigger] s[i] != c by {
            if i < rest.len() {
                assert(rest[i] == s[i]);
            }
        }
        if n > 0 {
            assert(rest[n - 1] == s[n - 1]);
        }
    } else {
        assert(s.skip(s.len() as int) =~= Seq::<char>::empty());
    }
}

/// What precedes the first `c` is the beginning of the text, holds no `c`, and
/// either has a `c` right after it or is the whole text.
pub proof fn law_before_first(s: Seq<char>, c: char)
    ensures
        ({
            let n = before_first(s, c).len() as int;
            &&& n <= s.len()
            &&& before_first(s, c) == s.take(n)
            &&& forall|i: int| 0 <= i < n ==> #[trigger] s[i] != c
            &&& n < s.len() ==> s[n] == c
        }),
    decreases s.len(),
{
    if s.len() > 0 && s[0] != c {
        let rest = s.drop_first();
        law_before_first(rest, c);
        let n = before_first(s, c).len() as int;
        assert(seq![s[0]] + rest.take(n - 1) =~= s.take(n));
        assert forall|i: int| 0 <= i < n implies #[trigger] s[i] != c by {
            if i > 0 {
                assert(rest[i - 1] == s[i]);
            }
        }
        if n < s.len() {
            assert(rest[n - 1] == s[n]);
        }
    } else {
        assert(s.take(0) =~= Seq::<char>::empty());
    }
}

/// Two texts count as the same exactly when they are equally long and differ, if
/// anywhere, in that one has the capital of the other's letter, from A to Z.
pub proof fn law_same_ignoring_ascii_case(a: Seq<char>, b: Seq<char>)
    ensures
        same_ignoring_ascii_case(a, b) <==> a.len() == b.len() && forall|i: int|
            0 <= i < a.len() ==> {
                ||| #[trigger] a[i] == b[i]
                ||| 'A' <= a[i] <= 'Z' && b[i] as int == a[i] as int + 32
                ||| 'A' <= b[i] <= 'Z' && a[i] as int == b[i] as int + 32
            },
{
    let la = a.map_values(|c: char| ascii_lower(c));
    let lb = b.map_values(|c: char| ascii_lower(c));
    if same_ignoring_ascii_case(a, b) {
        assert(la.len() == a.len() && lb.len() == b.len());
        assert forall|i: int| 0 <= i < a.len() implies {
            ||| #[trigger] a[i] == b[i]
            ||| 'A' <= a[i] <= 'Z' && b[i] as int == a[i] as int + 32
            ||| 'A' <= b[i] <= 'Z' && a[i] as int == b[i] as int + 32
        } by {
            assert(la[i] == lb[i]);
            lemma_ascii_lower(a[i]);
            lemma_ascii_lower(b[i]);
        }
    }
    if a.len() == b.len() && forall|i: int|
        0 <= i < a.len() ==> {
            ||| #[trigger] a[i] == b[i]
            ||| 'A' <= a[i] <= 'Z' && b[i] as int == a[i] as int + 32
            ||| 'A' <= b[i] <= 'Z' && a[i] as int == b[i] as int + 32
        } {
        assert forall|i: int| 0 <= i < a.len() implies la[i] == lb[i] by {
            assert(a[i] == a[i]);
            lemma_ascii_lower(a[i]);
            lemma_ascii_lower(b[i]);
        }
        assert(la =~= lb);
    }
}

proof fn lemma_ascii_lower(c: char)
    ensures
        'A' <= c <= 'Z' ==> ascii_lower(c) as int == c as int + 32,
        !('A' <= c <= 'Z') ==> ascii_lower(c) == c,
{
}

/// The number that a text of digits writes in base ten.
pub open spec fn decimal_value(s: Seq<char>) -> int
    decreases s.len(),
{
    if s.len() == 0 {
        0
    } else {
        decimal_value(s.drop_last()) * 10 + (s.last() as int - '0' as int)
    }
}

/// The decimal spelling of a number is made of digits, writes that number, and
/// begins with a zero only where it is the zero.
pub proof fn law_decimal_spells(n: nat)
    ensures
        decimal(n).len() >= 1,
        decimal_value(decimal(n)) == n,
        forall|i: int| 0 <= i < decimal(n).len() ==> '0' <= #[trigger] decimal(n)[i] <= '9',
        n > 0 ==> decimal(n)[0] != '0',
    decreases n,
{
    let s = decimal(n);
    if n >= 10 {
        law_decimal_spells(n / 10);
        let rest = decimal(n / 10);
        assert(s.drop_last() =~= rest);
        assert(s[0] == rest[0]);
        assert forall|i: int| 0 <= i < s.len() implies '0' <= #[trigger] s[i] <= '9' by {
            if i < rest.len() {
                assert(s[i] == rest[i]);
            }
        }
    } else {
        assert(s.drop_last() =~= Seq::<char>::empty());
        assert(decimal_value(s.drop_last()) == 0);
    }
}

/// Two texts in a row come apart again.
pub proof fn lemma_joined(a: Seq<char>, b: Seq<char>)
    ensures
        (a + b).take(a.len() as int) == a,
        (a + b).skip(a.len() as int) == b,
{
    assert((a + b).take(a.len() as int) =~= a);
    assert((a + b).skip(a.len() as int) =~= b);
}

/// A text is blank exactly when trimming leaves nothing of it.
pub proof fn law_blank(s: Seq<char>)
    ensures
        is_blank(s) <==> trim_start(s).len() == 0,
{
    law_trim_start(s);
    let n = s.len() - trim_start(s).len();
    if is_blank(s) && n < s.len() {
        assert(is_white(s[n]));
    }
}

} // verus!
