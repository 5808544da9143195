//! Character-level text helpers with their specifications.

use vstd::prelude::*;

verus! {

/// The characters of `s`, one by one.
pub fn chars_of(s: &str) -> (v: Vec<char>)
    ensures
        v@ == s@,
{
    let mut v: Vec<char> = Vec::new();
    for c in it: s.chars()
        invariant
            v@ == it.seq().take(it.index() as int),
    {
        v.push(c);
    }
    v
}

/// A `String` made of the given characters (`FromIterator<&char>` for `String`).
#[verifier::external_body]
pub(crate) fn string_of(v: &[char]) -> (s: String)
    ensures
        s@ == v@,
{
    v.iter().collect::<String>()
}

/// Copy of `v[from..to]`.
pub fn sub_chars(v: &[char], from: usize, to: usize) -> (r: Vec<char>)
    requires
        from <= to <= v@.len(),
    ensures
        r@ == v@.subrange(from as int, to as int),
{
    let mut r: Vec<char> = Vec::new();
    let mut i = from;
    while i < to
        invariant
            from <= i <= to <= v@.len(),
            r@ == v@.subrange(from as int, i as int),
        decreases to - i,
    {
        r.push(v[i]);
        i += 1;
    }
    r
}

/// Copy of `v`.
pub fn copy_chars(v: &[char]) -> (r: Vec<char>)
    ensures
        r@ == v@,
{
    let r = sub_chars(v, 0, v.len());
    assert(r@ =~= v@);
    r
}

/// `a ++ b`.
pub fn concat_chars(a: &[char], b: &[char]) -> (r: Vec<char>)
    ensures
        r@ == a@ + b@,
{
    let mut r: Vec<char> = Vec::new();
    let mut i: usize = 0;
    while i < a.len()
        invariant
            i <= a@.len(),
            r@ == a@.take(i as int),
        decreases a.len() - i,
    {
        r.push(a[i]);
        i += 1;
    }
    let mut j: usize = 0;
    while j < b.len()
        invariant
            j <= b@.len(),
            r@ == a@ + b@.take(j as int),
        decreases b.len() - j,
    {
        r.push(b[j]);
        j += 1;
    }
    r
}

/// Appends `b` to `a`.
pub fn push_all(a: &mut Vec<char>, b: &[char])
    ensures
        final(a)@ == old(a)@ + b@,
{
    let mut j: usize = 0;
    while j < b.len()
        invariant
            j <= b@.len(),
            a@ == old(a)@ + b@.take(j as int),
        decreases b.len() - j,
    {
        a.push(b[j]);
        j += 1;
    }
}

/// Appends the characters of `s` to `a`.
pub fn push_str(a: &mut Vec<char>, s: &str)
    ensures
        final(a)@ == old(a)@ + s@,
{
    let v = chars_of(s);
    push_all(a, &v);
}

/// Character-wise equality.
pub fn chars_eq(a: &[char], b: &[char]) -> (r: bool)
    ensures
        r == (a@ == b@),
{
    if a.len() != b.len() {
        return false;
    }
    let mut i: usize = 0;
    while i < a.len()
        invariant
            a@.len() == b@.len(),
            i <= a@.len(),
            forall|k: int| 0 <= k < i ==> a@[k] == b@[k],
        decreases a.len() - i,
    {
        if a[i] != b[i] {
            return false;
        }
        i += 1;
    }
    assert(a@ =~= b@);
    true
}

/// Equality with a literal.
pub fn chars_eq_str(a: &[char], s: &str) -> (r: bool)
    ensures
        r == (a@ == s@),
{
    let b = chars_of(s);
    chars_eq(a, &b)
}

/// Whether `c` occurs in `v`.
pub fn contains_char(v: &[char], c: char) -> (r: bool)
    ensures
        r == v@.contains(c),
{
    let mut i: usize = 0;
    while i < v.len()
        invariant
            i <= v@.len(),
            forall|k: int| 0 <= k < i ==> v@[k] != c,
        decreases v.len() - i,
    {
        if v[i] == c {
            assert(v@[i as int] == c);
            return true;
        }
        i += 1;
    }
    false
}

/// `needle` occurs as a contiguous run in `s`.
pub open spec fn has_infix(s: Seq<char>, needle: Seq<char>) -> bool {
    exists|i: int| 0 <= i <= s.len() - needle.len() && #[trigger] s.subrange(i, i + needle.len()) == needle
}

/// Whether `needle` occurs as a contiguous run in `v` (`str::contains`).
pub fn contains_chars(v: &[char], needle: &[char]) -> (r: bool)
    ensures
        r == has_infix(v@, needle@),
{
    if needle.len() > v.len() {
        return false;
    }
    if needle.len() == 0 {
        assert(v@.subrange(0int, 0int + needle@.len()) =~= needle@);
        return true;
    }
    let vl = v.len();
    let last = vl - needle.len();
    let mut i: usize = 0;
    while i <= last
        invariant
            vl == v@.len(),
            last == v@.len() - needle@.len(),
            needle@.len() > 0,
            i <= last + 1,
            forall|k: int| 0 <= k < i ==> #[trigger] v@.subrange(k, k + needle@.len()) != needle@,
        decreases last + 1 - i,
    {
        let mut j: usize = 0;
        let mut same = true;
        while j < needle.len()
            invariant
                i <= last,
                vl == v@.len(),
                last == v@.len() - needle@.len(),
                j <= needle@.len(),
                same == (forall|k: int| 0 <= k < j ==> v@[i + k] == needle@[k]),
            decreases needle.len() - j,
        {
            if v[i + j] != needle[j] {
                same = false;
            }
            j += 1;
        }
        if same {
            assert(v@.subrange(i as int, i + needle@.len()) =~= needle@);
            return true;
        }
        assert(v@.subrange(i as int, i + needle@.len()) != needle@) by {
            let k = choose|k: int| 0 <= k < needle@.len() && v@[i + k] != needle@[k];
            assert(v@.subrange(i as int, i + needle@.len())[k] == v@[i + k]);
        }
        i += 1;
    }
    false
}

/// Whether `needle` occurs in `v` (`str::contains` with a literal).
pub fn contains_str(v: &[char], needle: &str) -> (r: bool)
    ensures
        r == has_infix(v@, needle@),
{
    let n = chars_of(needle);
    contains_chars(v, &n)
}

/// `v` starts with `p`.
pub fn starts_with_chars(v: &[char], p: &[char]) -> (r: bool)
    ensures
        r == (p@.len() <= v@.len() && v@.take(p@.len() as int) == p@),
{
    if p.len() > v.len() {
        return false;
    }
    let mut i: usize = 0;
    while i < p.len()
        invariant
            p@.len() <= v@.len(),
            i <= p@.len(),
            forall|k: int| 0 <= k < i ==> v@[k] == p@[k],
        decreases p.len() - i,
    {
        if v[i] != p[i] {
            assert(v@.take(p@.len() as int)[i as int] != p@[i as int]);
            return false;
        }
        i += 1;
    }
    assert(v@.take(p@.len() as int) =~= p@);
    true
}

/// Unicode `White_Space` characters (`char::is_whitespace`).
pub open spec fn is_ws(c: char) -> bool {
    ||| c == ' '
    ||| ('\t' <= c && c <= '\r')
    ||| c == '\u{85}'
    ||| c == '\u{A0}'
    ||| c == '\u{1680}'
    ||| ('\u{2000}' <= c && c <= '\u{200A}')
    ||| c == '\u{2028}'
    ||| c == '\u{2029}'
    ||| c == '\u{202F}'
    ||| c == '\u{205F}'
    ||| c == '\u{3000}'
}

/// `char::is_whitespace`.
pub fn is_whitespace(c: char) -> (r: bool)
    ensures
        r == is_ws(c),
{
    c == ' ' || ('\t' <= c && c <= '\r') || c == '\u{85}' || c == '\u{A0}' || c == '\u{1680}'
        || ('\u{2000}' <= c && c <= '\u{200A}') || c == '\u{2028}' || c == '\u{2029}' || c
        == '\u{202F}' || c == '\u{205F}' || c == '\u{3000}'
}

/// Number of leading whitespace characters.
pub open spec fn lead_ws(s: Seq<char>) -> nat
    decreases s.len(),
{
    if s.len() == 0 || !is_ws(s[0]) {
        0
    } else {
        1 + lead_ws(s.drop_first())
    }
}

/// Number of trailing whitespace characters.
pub open spec fn trail_ws(s: Seq<char>) -> nat
    decreases s.len(),
{
    if s.len() == 0 || !is_ws(s.last()) {
        0
    } else {
        1 + trail_ws(s.drop_last())
    }
}

/// `str::trim_start`.
pub open spec fn trim_start(s: Seq<char>) -> Seq<char> {
    s.skip(lead_ws(s) as int)
}

/// `str::trim_end`.
pub open spec fn trim_end(s: Seq<char>) -> Seq<char> {
    s.take(s.len() - trail_ws(s))
}

/// `str::trim`.
pub open spec fn trim(s: Seq<char>) -> Seq<char> {
    trim_end(trim_start(s))
}

pub proof fn lemma_lead_ws(s: Seq<char>)
    ensures
        lead_ws(s) <= s.len(),
        forall|k: int| 0 <= k < lead_ws(s) ==> is_ws(#[trigger] s[k]),
        lead_ws(s) < s.len() ==> !is_ws(s[lead_ws(s) as int]),
    decreases s.len(),
{
    if s.len() > 0 && is_ws(s[0]) {
        lemma_lead_ws(s.drop_first());
        assert forall|k: int| 0 <= k < lead_ws(s) implies is_ws(#[trigger] s[k]) by {
            if k > 0 {
                assert(s[k] == s.drop_first()[k - 1]);
            }
        }
    }
}

pub proof fn lemma_lead_ws_unique(s: Seq<char>, n: int)
    requires
        0 <= n <= s.len(),
        forall|k: int| 0 <= k < n ==> is_ws(#[trigger] s[k]),
        n < s.len() ==> !is_ws(s[n]),
    ensures
        lead_ws(s) == n,
    decreases s.len(),
{
    if n > 0 {
        assert(is_ws(s[0]));
        assert forall|k: int| 0 <= k < n - 1 implies is_ws(#[trigger] s.drop_first()[k]) by {
            assert(s.drop_first()[k] == s[k + 1]);
        }
        if n - 1 < s.drop_first().len() {
            assert(s.drop_first()[n - 1] == s[n]);
        }
        lemma_lead_ws_unique(s.drop_first(), n - 1);
    }
}

pub proof fn lemma_trail_ws(s: Seq<char>)
    ensures
        trail_ws(s) <= s.len(),
        forall|k: int| s.len() - trail_ws(s) <= k < s.len() ==> is_ws(#[trigger] s[k]),
        trail_ws(s) < s.len() ==> !is_ws(s[s.len() - trail_ws(s) - 1]),
    decreases s.len(),
{
    if s.len() > 0 && is_ws(s.last()) {
        lemma_trail_ws(s.drop_last());
        assert forall|k: int| s.len() - trail_ws(s) <= k < s.len() implies is_ws(#[trigger] s[k]) by {
            if k < s.len() - 1 {
                assert(s[k] == s.drop_last()[k]);
            }
        }
        if trail_ws(s) < s.len() {
            assert(s[s.len() - trail_ws(s) - 1] == s.drop_last()[s.drop_last().len() - trail_ws(s.drop_last()) - 1]);
        }
    }
}

pub proof fn lemma_trail_ws_unique(s: Seq<char>, n: int)
    requires
        0 <= n <= s.len(),
        forall|k: int| s.len() - n <= k < s.len() ==> is_ws(#[trigger] s[k]),
        n < s.len() ==> !is_ws(s[s.len() - n - 1]),
    ensures
        trail_ws(s) == n,
    decreases s.len(),
{
    if n > 0 {
        assert(is_ws(s[s.len() - 1]));
        let t = s.drop_last();
        assert forall|k: int| t.len() - (n - 1) <= k < t.len() implies is_ws(#[trigger] t[k]) by {
            assert(t[k] == s[k]);
        }
        if n - 1 < t.len() {
            assert(t[t.len() - (n - 1) - 1] == s[s.len() - n - 1]);
        }
        lemma_trail_ws_unique(t, n - 1);
    }
}

/// `str::trim` on characters.
pub fn trim_chars(v: &[char]) -> (r: Vec<char>)
    ensures
        r@ == trim(v@),
{
    let mut a: usize = 0;
    while a < v.len() && is_whitespace(v[a])
        invariant
            a <= v@.len(),
            forall|k: int| 0 <= k < a ==> is_ws(#[trigger] v@[k]),
        decreases v.len() - a,
    {
        a += 1;
    }
    proof {
        lemma_lead_ws_unique(v@, a as int);
    }
    let mut b: usize = v.len();
    while b > a && is_whitespace(v[b - 1])
        invariant
            a <= b <= v@.len(),
            forall|k: int| b <= k < v@.len() ==> is_ws(#[trigger] v@[k]),
        decreases b - a,
    {
        b -= 1;
    }
    let ghost s = v@.skip(a as int);
    proof {
        assert forall|k: int| s.len() - (v@.len() - b) <= k < s.len() implies is_ws(#[trigger] s[k]) by {
            assert(s[k] == v@[k + a]);
        }
        if (v@.len() - b) < s.len() {
            assert(s[s.len() - (v@.len() - b) - 1] == v@[b - 1]);
        }
        lemma_trail_ws_unique(s, (v@.len() - b) as int);
    }
    let r = sub_chars(v, a, b);
    assert(r@ =~= trim(v@));
    r
}

/// Length of the leading run of non-whitespace characters.
pub open spec fn word_len(s: Seq<char>) -> nat
    decreases s.len(),
{
    if s.len() == 0 || is_ws(s[0]) {
        0
    } else {
        1 + word_len(s.drop_first())
    }
}

pub proof fn lemma_word_len(s: Seq<char>)
    ensures
        word_len(s) <= s.len(),
        forall|k: int| 0 <= k < word_len(s) ==> !is_ws(#[trigger] s[k]),
        word_len(s) < s.len() ==> is_ws(s[word_len(s) as int]),
    decreases s.len(),
{
    if s.len() > 0 && !is_ws(s[0]) {
        lemma_word_len(s.drop_first());
        assert forall|k: int| 0 <= k < word_len(s) implies !is_ws(#[trigger] s[k]) by {
            if k > 0 {
                assert(s[k] == s.drop_first()[k - 1]);
            }
        }
    }
}

pub proof fn lemma_word_len_unique(s: Seq<char>, n: int)
    requires
        0 <= n <= s.len(),
        forall|k: int| 0 <= k < n ==> !is_ws(#[trigger] s[k]),
        n < s.len() ==> is_ws(s[n]),
    ensures
        word_len(s) == n,
    decreases s.len(),
{
    if n > 0 {
        assert(!is_ws(s[0]));
        assert forall|k: int| 0 <= k < n - 1 implies !is_ws(#[trigger] s.drop_first()[k]) by {
            assert(s.drop_first()[k] == s[k + 1]);
        }
        if n - 1 < s.drop_first().len() {
            assert(s.drop_first()[n - 1] == s[n]);
        }
        lemma_word_len_unique(s.drop_first(), n - 1);
    } else if s.len() > 0 {
        assert(is_ws(s[0]));
    }
}

/// `str::split_whitespace`: the maximal runs of non-whitespace characters.
pub open spec fn split_ws(s: Seq<char>) -> Seq<Seq<char>>
    decreases s.len(),
{
    if s.len() == 0 {
        Seq::empty()
    } else if is_ws(s[0]) {
        split_ws(s.drop_first())
    } else {
        let n = word_len(s);
        if 0 < n <= s.len() {
            seq![s.take(n as int)] + split_ws(s.skip(n as int))
        } else {
            Seq::empty()
        }
    }
}

pub open spec fn seqs_of(v: Seq<Vec<char>>) -> Seq<Seq<char>> {
    Seq::new(v.len(), |i: int| v[i]@)
}

/// `str::split_whitespace` on characters.
pub fn split_whitespace(v: &[char]) -> (r: Vec<Vec<char>>)
    ensures
        seqs_of(r@) == split_ws(v@),
{
    let mut r: Vec<Vec<char>> = Vec::new();
    let mut i: usize = 0;
    assert(v@.skip(0) =~= v@);
    assert(seqs_of(r@) + split_ws(v@) =~= split_ws(v@));
    while i < v.len()
        invariant
            i <= v@.len(),
            seqs_of(r@) + split_ws(v@.skip(i as int)) == split_ws(v@),
        decreases v.len() - i,
    {
        let ghost rest = v@.skip(i as int);
        if is_whitespace(v[i]) {
            assert(rest.drop_first() =~= v@.skip(i + 1));
            i += 1;
        } else {
            let mut j = i;
            while j < v.len() && !is_whitespace(v[j])
                invariant
                    i <= j <= v@.len(),
                    forall|k: int| i <= k < j ==> !is_ws(#[trigger] v@[k]),
                decreases v.len() - j,
            {
                j += 1;
            }
            proof {
                assert forall|k: int| 0 <= k < j - i implies !is_ws(#[trigger] rest[k]) by {
                    assert(rest[k] == v@[k + i]);
                }
                if j - i < rest.len() {
                    assert(rest[j - i] == v@[j as int]);
                }
                lemma_word_len_unique(rest, j - i);
                assert(rest.skip(j - i) =~= v@.skip(j as int));
                assert(rest.take(j - i) =~= v@.subrange(i as int, j as int));
            }
            let w = sub_chars(v, i, j);
            let ghost old_r = r@;
            r.push(w);
            assert(seqs_of(r@) =~= seqs_of(old_r) + seq![w@]);
            assert(seqs_of(r@) + split_ws(v@.skip(j as int)) =~= seqs_of(old_r) + split_ws(rest));
            i = j;
        }
    }
    assert(v@.skip(v@.len() as int) =~= Seq::<char>::empty());
    assert(seqs_of(r@) + Seq::<Seq<char>>::empty() =~= seqs_of(r@));
    r
}

/// ASCII upper case of one character.
pub open spec fn upper_char(c: char) -> char {
    if 'a' <= c && c <= 'z' {
        ((c as u32) - 32) as char
    } else {
        c
    }
}

/// ASCII lower case of one character.
pub open spec fn lower_char(c: char) -> char {
    if 'A' <= c && c <= 'Z' {
        ((c as u32) + 32) as char
    } else {
        c
    }
}

/// `str::to_ascii_uppercase`.
pub open spec fn upper(s: Seq<char>) -> Seq<char> {
    Seq::new(s.len(), |i: int| upper_char(s[i]))
}

/// `str::to_ascii_lowercase`.
pub open spec fn lower(s: Seq<char>) -> Seq<char> {
    Seq::new(s.len(), |i: int| lower_char(s[i]))
}

pub fn to_upper_char(c: char) -> (r: char)
    ensures
        r == upper_char(c),
{
    if 'a' <= c && c <= 'z' {
        let n = (c as u32) - 32;
        proof {
            assert(0x41 <= n <= 0x5a);
        }
        char_from_ascii(n)
    } else {
        c
    }
}

pub fn to_lower_char(c: char) -> (r: char)
    ensures
        r == lower_char(c),
{
    if 'A' <= c && c <= 'Z' {
        let n = (c as u32) + 32;
        char_from_ascii(n)
    } else {
        c
    }
}

/// The character with the given ASCII code (`char::from_u32` on values below 128).
#[verifier::external_body]
pub(crate) fn char_from_ascii(n: u32) -> (c: char)
    requires
        n < 128,
    ensures
        c == n as char,
        c as u32 == n,
{
    char::from_u32(n).unwrap()
}

/// `str::to_ascii_uppercase` on characters.
pub fn to_upper(v: &[char]) -> (r: Vec<char>)
    ensures
        r@ == upper(v@),
{
    let mut r: Vec<char> = Vec::new();
    let mut i: usize = 0;
    while i < v.len()
        invariant
            i <= v@.len(),
            r@ == upper(v@.take(i as int)),
        decreases v.len() - i,
    {
        let c = to_upper_char(v[i]);
        r.push(c);
        i += 1;
        assert(r@ =~= upper(v@.take(i as int)));
    }
    assert(v@.take(v@.len() as int) =~= v@);
    r
}

/// `str::to_ascii_lowercase` on characters.
pub fn to_lower(v: &[char]) -> (r: Vec<char>)
    ensures
        r@ == lower(v@),
{
    let mut r: Vec<char> = Vec::new();
    let mut i: usize = 0;
    while i < v.len()
        invariant
            i <= v@.len(),
            r@ == lower(v@.take(i as int)),
        decreases v.len() - i,
    {
        let c = to_lower_char(v[i]);
        r.push(c);
        i += 1;
        assert(r@ =~= lower(v@.take(i as int)));
    }
    assert(v@.take(v@.len() as int) =~= v@);
    r
}

/// `parts` joined with `sep` between neighbours (`[..].join(sep)`).
pub open spec fn join(parts: Seq<Seq<char>>, sep: Seq<char>) -> Seq<char>
    decreases parts.len(),
{
    if parts.len() == 0 {
        Seq::empty()
    } else if parts.len() == 1 {
        parts[0]
    } else {
        join(parts.drop_last(), sep) + sep + parts.last()
    }
}

/// `parts.join(sep)`.
pub fn join_parts(parts: &Vec<Vec<char>>, sep: &[char]) -> (r: Vec<char>)
    ensures
        r@ == join(seqs_of(parts@), sep@),
{
    let mut r: Vec<char> = Vec::new();
    let mut i: usize = 0;
    while i < parts.len()
        invariant
            i <= parts@.len(),
            r@ == join(seqs_of(parts@).take(i as int), sep@),
        decreases parts.len() - i,
    {
        let ghost pre = seqs_of(parts@).take(i + 1);
        assert(pre.drop_last() =~= seqs_of(parts@).take(i as int));
        if i > 0 {
            push_all(&mut r, sep);
        } else {
            assert(seqs_of(parts@).take(0) =~= Seq::<Seq<char>>::empty());
        }
        push_all(&mut r, &parts[i]);
        i += 1;
    }
    assert(seqs_of(parts@).take(parts@.len() as int) =~= seqs_of(parts@));
    r
}

/// Number of leading copies of `c`.
pub open spec fn lead_char(s: Seq<char>, c: char) -> nat
    decreases s.len(),
{
    if s.len() == 0 || s[0] != c {
        0
    } else {
        1 + lead_char(s.drop_first(), c)
    }
}

/// Number of trailing copies of `c`.
pub open spec fn trail_char(s: Seq<char>, c: char) -> nat
    decreases s.len(),
{
    if s.len() == 0 || s.last() != c {
        0
    } else {
        1 + trail_char(s.drop_last(), c)
    }
}

/// `s.trim_start_matches(c).trim_end_matches(c)`.
pub open spec fn trim_char(s: Seq<char>, c: char) -> Seq<char> {
    let a = s.skip(lead_char(s, c) as int);
    a.take(a.len() - trail_char(a, c))
}

pub proof fn lemma_lead_char_unique(s: Seq<char>, c: char, n: int)
    requires
        0 <= n <= s.len(),
        forall|k: int| 0 <= k < n ==> #[trigger] s[k] == c,
        n < s.len() ==> s[n] != c,
    ensures
        lead_char(s, c) == n,
    decreases s.len(),
{
    if n > 0 {
        assert forall|k: int| 0 <= k < n - 1 implies #[trigger] s.drop_first()[k] == c by {
            assert(s.drop_first()[k] == s[k + 1]);
        }
        if n - 1 < s.drop_first().len() {
            assert(s.drop_first()[n - 1] == s[n]);
        }
        lemma_lead_char_unique(s.drop_first(), c, n - 1);
    }
}

pub proof fn lemma_trail_char_unique(s: Seq<char>, c: char, n: int)
    requires
        0 <= n <= s.len(),
        forall|k: int| s.len() - n <= k < s.len() ==> #[trigger] s[k] == c,
        n < s.len() ==> s[s.len() - n - 1] != c,
    ensures
        trail_char(s, c) == n,
    decreases s.len(),
{
    if n > 0 {
        let t = s.drop_last();
        assert(s[s.len() - 1] == c);
        assert forall|k: int| t.len() - (n - 1) <= k < t.len() implies #[trigger] t[k] == c by {
            assert(t[k] == s[k]);
        }
        if n - 1 < t.len() {
            assert(t[t.len() - (n - 1) - 1] == s[s.len() - n - 1]);
        }
        lemma_trail_char_unique(t, c, n - 1);
    }
}

/// `trim_start_matches(c).trim_end_matches(c)` on characters.
pub fn trim_char_text(v: &[char], c: char) -> (r: Vec<char>)
    ensures
        r@ == trim_char(v@, c),
{
    let mut a: usize = 0;
    while a < v.len() && v[a] == c
        invariant
            a <= v@.len(),
            forall|k: int| 0 <= k < a ==> #[trigger] v@[k] == c,
        decreases v.len() - a,
    {
        a += 1;
    }
    proof {
        lemma_lead_char_unique(v@, c, a as int);
    }
    let mut b: usize = v.len();
    while b > a && v[b - 1] == c
        invariant
            a <= b <= v@.len(),
            forall|k: int| b <= k < v@.len() ==> #[trigger] v@[k] == c,
        decreases b - a,
    {
        b -= 1;
    }
    let ghost s = v@.skip(a as int);
    proof {
        assert forall|k: int| s.len() - (v@.len() - b) <= k < s.len() implies #[trigger] s[k] == c by {
            assert(s[k] == v@[k + a]);
        }
        if (v@.len() - b) < s.len() {
            assert(s[s.len() - (v@.len() - b) - 1] == v@[b - 1]);
        }
        lemma_trail_char_unique(s, c, (v@.len() - b) as int);
    }
    let r = sub_chars(v, a, b);
    assert(r@ =~= trim_char(v@, c));
    r
}

/// Every occurrence of `pat` (non-empty), scanned left to right without
/// overlap, replaced by `rep` (`str::replace`).
pub open spec fn replace_all(s: Seq<char>, pat: Seq<char>, rep: Seq<char>) -> Seq<char>
    decreases s.len(),
{
    if pat.len() == 0 || s.len() < pat.len() {
        s
    } else if s.take(pat.len() as int) == pat {
        rep + replace_all(s.skip(pat.len() as int), pat, rep)
    } else {
        seq![s[0]] + replace_all(s.drop_first(), pat, rep)
    }
}

/// `str::replace` on characters, for a non-empty pattern.
pub fn replace_text(v: &[char], pat: &str, rep: &str) -> (r: Vec<char>)
    ensures
        r@ == replace_all(v@, pat@, rep@),
{
    let p = chars_of(pat);
    let q = chars_of(rep);
    if p.len() == 0 {
        return copy_chars(v);
    }
    let mut r: Vec<char> = Vec::new();
    let mut i: usize = 0;
    let vl = v.len();
    assert(v@.skip(0) =~= v@);
    while i < v.len()
        invariant
            i <= v@.len(),
            vl == v@.len(),
            p@ == pat@,
            q@ == rep@,
            p@.len() > 0,
            r@ + replace_all(v@.skip(i as int), pat@, rep@) == replace_all(v@, pat@, rep@),
        decreases v.len() - i,
    {
        let ghost rest = v@.skip(i as int);
        if v.len() - i < p.len() {
            proof {
                assert(replace_all(rest, pat@, rep@) == rest);
            }
            let tail = sub_chars(v, i, v.len());
            push_all(&mut r, &tail);
            assert(tail@ =~= rest);
            assert(v@.skip(v@.len() as int) =~= Seq::<char>::empty());
            assert(r@ + replace_all(v@.skip(v@.len() as int), pat@, rep@) =~= r@);
            i = v.len();
        } else {
            let mut j: usize = 0;
            let mut same = true;
            while j < p.len()
                invariant
                    i + p@.len() <= v@.len(),
                    vl == v@.len(),
                    j <= p@.len(),
                    same == (forall|k: int| 0 <= k < j ==> v@[i + k] == p@[k]),
                decreases p.len() - j,
            {
                if v[i + j] != p[j] {
                    same = false;
                }
                j += 1;
            }
            if same {
                assert(rest.take(p@.len() as int) =~= p@);
                assert(rest.skip(p@.len() as int) =~= v@.skip(i + p@.len()));
                let ghost before = r@;
                push_all(&mut r, &q);
                assert(r@ + replace_all(v@.skip(i + p@.len()), pat@, rep@) =~= before + replace_all(rest, pat@, rep@));
                i += p.len();
            } else {
                assert(rest.take(p@.len() as int) != p@) by {
                    let k = choose|k: int| 0 <= k < p@.len() && v@[i + k] != p@[k];
                    assert(rest.take(p@.len() as int)[k] == v@[i + k]);
                }
                assert(rest.drop_first() =~= v@.skip(i + 1));
                let ghost before = r@;
                r.push(v[i]);
                assert(r@ + replace_all(v@.skip(i + 1), pat@, rep@) =~= before + replace_all(rest, pat@, rep@));
                i += 1;
            }
        }
    }
    assert(v@.skip(i as int) =~= Seq::<char>::empty());
    assert(r@ + Seq::<char>::empty() =~= r@);
    r
}

/// ASCII letter or digit.
pub open spec fn is_alnum(c: char) -> bool {
    ('0' <= c && c <= '9') || ('a' <= c && c <= 'z') || ('A' <= c && c <= 'Z')
}

/// Every character is an ASCII letter or digit.
pub fn all_alnum(v: &[char]) -> (r: bool)
    ensures
        r == (forall|i: int| 0 <= i < v@.len() ==> is_alnum(#[trigger] v@[i])),
{
    let mut i: usize = 0;
    while i < v.len()
        invariant
            i <= v@.len(),
            forall|k: int| 0 <= k < i ==> is_alnum(#[trigger] v@[k]),
        decreases v.len() - i,
    {
        let c = v[i];
        if !(('0' <= c && c <= '9') || ('a' <= c && c <= 'z') || ('A' <= c && c <= 'Z')) {
            assert(!is_alnum(v@[i as int]));
            return false;
        }
        i += 1;
    }
    true
}

} // verus!
