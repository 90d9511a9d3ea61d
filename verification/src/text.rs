//! Character-level helpers on strings: infix search, suffix removal,
//! lexicographic order and decimal parsing.
use vstd::prelude::*;
use vstd::string::*;

verus! {

/// `pat` occurs somewhere inside `text`.
pub open spec fn has_infix(text: Seq<char>, pat: Seq<char>) -> bool {
    exists|i: int|
        0 <= i && i + pat.len() <= text.len() && #[trigger] text.subrange(i, i + pat.len()) == pat
}

/// `text` ends with `suffix`.
pub open spec fn has_suffix(text: Seq<char>, suffix: Seq<char>) -> bool {
    suffix.len() <= text.len() && text.subrange(text.len() - suffix.len(), text.len() as int)
        == suffix
}

/// Whether two strings hold the same characters.
pub fn str_eq(a: &str, b: &str) -> (res: bool)
    ensures
        res == (a@ == b@),
{
    a.to_owned() == b.to_owned()
}

/// The characters of `s`, in order.
pub fn chars_of(s: &str) -> (v: Vec<char>)
    ensures
        v@ == s@,
{
    let n = s.unicode_len();
    let mut v: Vec<char> = Vec::new();
    let mut i: usize = 0;
    while i < n
        invariant
            n == s@.len(),
            i <= n,
            v@ == s@.take(i as int),
        decreases n - i,
    {
        v.push(s.get_char(i));
        i += 1;
        assert(v@ =~= s@.take(i as int));
    }
    assert(v@ =~= s@);
    v
}

/// Whether `t[start..start + p.len()]` equals `p`; `start + p.len()` must be in bounds.
fn matches_at(t: &Vec<char>, p: &Vec<char>, start: usize) -> (res: bool)
    requires
        start + p@.len() <= t@.len(),
    ensures
        res == (t@.subrange(start as int, start + p@.len()) == p@),
{
    let pl = p.len();
    let tl = t.len();
    let mut k: usize = 0;
    while k < pl
        invariant
            pl == p@.len(),
            tl == t@.len(),
            k <= pl,
            start + pl <= t@.len(),
            forall|m: int| 0 <= m < k ==> t@[start + m] == p@[m],
        decreases pl - k,
    {
        if t[start + k] != p[k] {
            assert(t@.subrange(start as int, start + pl)[k as int] != p@[k as int]);
            return false;
        }
        k += 1;
    }
    assert(t@.subrange(start as int, start + pl) =~= p@);
    true
}

/// Whether `pat` occurs inside `text`, as `str::contains` with a string pattern.
pub fn contains_str(text: &str, pat: &str) -> (res: bool)
    ensures
        res == has_infix(text@, pat@),
{
    let t = chars_of(text);
    let p = chars_of(pat);
    let tl = t.len();
    let pl = p.len();
    if pl > tl {
        return false;
    }
    let last = tl - pl;
    let mut i: usize = 0;
    loop
        invariant
            tl == t@.len(),
            pl == p@.len(),
            t@ == text@,
            p@ == pat@,
            last == tl - pl,
            i <= last,
            forall|j: int| 0 <= j < i ==> #[trigger] t@.subrange(j, j + pl) != p@,
        decreases last - i,
    {
        if matches_at(&t, &p, i) {
            return true;
        }
        if i == last {
            return false;
        }
        i += 1;
    }
}

/// `text` with `suffix` removed from its end, if it ends with it, as `str::strip_suffix`.
pub fn strip_suffix(text: &str, suffix: &str) -> (res: Option<String>)
    ensures
        res is Some <==> has_suffix(text@, suffix@),
        res matches Some(r) ==> r@ == text@.subrange(0, text@.len() - suffix@.len()),
{
    let t = chars_of(text);
    let s = chars_of(suffix);
    let tl = t.len();
    let sl = s.len();
    if sl > tl {
        return None;
    }
    if matches_at(&t, &s, tl - sl) {
        let stem = text.substring_char(0, tl - sl);
        Some(stem.to_owned())
    } else {
        None
    }
}

/// `a` comes before `b`, or equals it, in the lexicographic order of their characters.
pub open spec fn text_le(a: Seq<char>, b: Seq<char>) -> bool
    decreases a.len(),
{
    if a.len() == 0 {
        true
    } else if b.len() == 0 {
        false
    } else if a[0] != b[0] {
        a[0] < b[0]
    } else {
        text_le(a.drop_first(), b.drop_first())
    }
}

/// The lexicographic order is reflexive.
pub proof fn lemma_text_le_refl(a: Seq<char>)
    ensures
        text_le(a, a),
    decreases a.len(),
{
    if a.len() > 0 {
        lemma_text_le_refl(a.drop_first());
    }
}

/// The lexicographic order is total.
pub proof fn lemma_text_le_total(a: Seq<char>, b: Seq<char>)
    ensures
        text_le(a, b) || text_le(b, a),
    decreases a.len(),
{
    if a.len() > 0 && b.len() > 0 && a[0] == b[0] {
        lemma_text_le_total(a.drop_first(), b.drop_first());
    }
}

/// The lexicographic order is transitive.
pub proof fn lemma_text_le_trans(a: Seq<char>, b: Seq<char>, c: Seq<char>)
    requires
        text_le(a, b),
        text_le(b, c),
    ensures
        text_le(a, c),
    decreases a.len(),
{
    if a.len() > 0 && b.len() > 0 && c.len() > 0 && a[0] == b[0] && b[0] == c[0] {
        lemma_text_le_trans(a.drop_first(), b.drop_first(), c.drop_first());
    }
}

/// The lexicographic order is antisymmetric.
pub proof fn lemma_text_le_antisym(a: Seq<char>, b: Seq<char>)
    requires
        text_le(a, b),
        text_le(b, a),
    ensures
        a == b,
    decreases a.len(),
{
    if a.len() > 0 && b.len() > 0 {
        lemma_text_le_antisym(a.drop_first(), b.drop_first());
        assert(a =~= seq![a[0]] + a.drop_first());
        assert(b =~= seq![b[0]] + b.drop_first());
    } else {
        assert(a =~= b);
    }
}

/// Lexicographic comparison of two character sequences.
pub fn text_le_exec(a: &Vec<char>, b: &Vec<char>) -> (res: bool)
    ensures
        res == text_le(a@, b@),
{
    let al = a.len();
    let bl = b.len();
    let mut i: usize = 0;
    assert(a@.skip(0) =~= a@);
    assert(b@.skip(0) =~= b@);
    while i < al && i < bl && a[i] == b[i]
        invariant
            al == a@.len(),
            bl == b@.len(),
            i <= al,
            i <= bl,
            a@.take(i as int) == b@.take(i as int),
            text_le(a@, b@) == text_le(a@.skip(i as int), b@.skip(i as int)),
        decreases al - i,
    {
        assert(a@.skip(i as int).drop_first() =~= a@.skip(i + 1));
        assert(b@.skip(i as int).drop_first() =~= b@.skip(i + 1));
        assert(a@.take(i + 1) =~= a@.take(i as int).push(a@[i as int]));
        assert(b@.take(i + 1) =~= b@.take(i as int).push(b@[i as int]));
        i += 1;
    }
    if i == al {
        true
    } else if i == bl {
        false
    } else {
        a[i] < b[i]
    }
}

/// The character is an ASCII decimal digit.
pub open spec fn is_digit(c: char) -> bool {
    '0' <= c && c <= '9'
}

/// Every character of `s` is an ASCII decimal digit.
pub open spec fn all_digits(s: Seq<char>) -> bool {
    forall|i: int| 0 <= i < s.len() ==> is_digit(#[trigger] s[i])
}

/// The number that the decimal digits `s` spell out.
pub open spec fn digits_value(s: Seq<char>) -> nat
    decreases s.len(),
{
    if s.len() == 0 {
        0
    } else {
        digits_value(s.drop_last()) * 10 + ((s.last() as int - '0' as int) as nat)
    }
}

/// What `str::parse::<u32>` gives: an optional `+` followed by one or more
/// ASCII digits whose value fits in a `u32`; anything else is an error.
pub open spec fn parse_u32_spec(s: Seq<char>) -> Option<u32> {
    let d = if s.len() > 0 && s[0] == '+' {
        s.drop_first()
    } else {
        s
    };
    if d.len() > 0 && all_digits(d) && digits_value(d) <= u32::MAX {
        Some(digits_value(d) as u32)
    } else {
        None
    }
}

proof fn lemma_digits_value_prefix(s: Seq<char>, k: int)
    requires
        all_digits(s),
        0 <= k <= s.len(),
    ensures
        digits_value(s.take(k)) <= digits_value(s),
    decreases s.len(),
{
    if k < s.len() {
        assert(s.drop_last().take(k) =~= s.take(k));
        lemma_digits_value_prefix(s.drop_last(), k);
    } else {
        assert(s.take(k) =~= s);
    }
}

/// Parses a `u32` from decimal text the way `str::parse::<u32>` does.
pub fn parse_u32(s: &str) -> (res: Option<u32>)
    ensures
        res == parse_u32_spec(s@),
{
    let cs = chars_of(s);
    let n = cs.len();
    let mut start: usize = 0;
    if n > 0 && cs[0] == '+' {
        start = 1;
    }
    let ghost d = if s@.len() > 0 && s@[0] == '+' {
        s@.drop_first()
    } else {
        s@
    };
    assert(d =~= cs@.skip(start as int));
    if start == n {
        return None;
    }
    let mut acc: u64 = 0;
    let mut i: usize = start;
    while i < n
        invariant
            cs@ == s@,
            n == cs@.len(),
            start <= i <= n,
            d == cs@.skip(start as int),
            d.len() > 0,
            parse_u32_spec(s@) == (if all_digits(d) && digits_value(d) <= u32::MAX {
                Some(digits_value(d) as u32)
            } else {
                None
            }),
            all_digits(d.take(i - start)),
            acc == digits_value(d.take(i - start)),
            acc <= u32::MAX,
        decreases n - i,
    {
        let c = cs[i];
        assert(d.take(i - start + 1) =~= d.take(i - start).push(c));
        assert(d.take(i - start + 1).drop_last() =~= d.take(i - start));
        if !('0' <= c && c <= '9') {
            assert(!is_digit(d[i - start]));
            assert(!all_digits(d));
            return None;
        }
        let dv: u64 = ((c as u32) - ('0' as u32)) as u64;
        acc = acc * 10 + dv;
        assert(acc == digits_value(d.take(i - start + 1)));
        assert(all_digits(d.take(i - start + 1)));
        if acc > 0xffff_ffffu64 {
            proof {
                if all_digits(d) {
                    lemma_digits_value_prefix(d, i - start + 1);
                }
            }
            return None;
        }
        i += 1;
    }
    assert(d.take(n - start) =~= d);
    Some(acc as u32)
}

} // verus!
