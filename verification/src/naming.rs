//! Crate-name sanitizing and the small character/string helpers it uses.
use vstd::prelude::*;

verus! {

broadcast use vstd::string::group_string_axioms;

/// Whether a character is an ASCII letter or digit.
pub open spec fn is_ascii_alnum(c: char) -> bool {
    ('a' <= c && c <= 'z') || ('A' <= c && c <= 'Z') || ('0' <= c && c <= '9')
}

/// Whether a character is an ASCII digit.
pub open spec fn is_ascii_digit(c: char) -> bool {
    '0' <= c && c <= '9'
}

/// ASCII lowercasing: upper-case ASCII letters map to their lower-case form,
/// every other character is unchanged.
pub open spec fn ascii_lower(c: char) -> char {
    if 'A' <= c && c <= 'Z' {
        ((c as int) + 32) as char
    } else {
        c
    }
}

/// The separators a crate name keeps and trims at its ends.
pub open spec fn is_name_separator(c: char) -> bool {
    c == '-' || c == '_'
}

/// The per-character crate-name policy: alphanumerics lower-cased, `-` and
/// `_` kept, anything else becomes `-`.
pub open spec fn crate_name_char(c: char) -> char {
    if is_ascii_alnum(c) {
        ascii_lower(c)
    } else if is_name_separator(c) {
        c
    } else {
        '-'
    }
}

/// Drop leading separators.
pub open spec fn trim_separators_front(s: Seq<char>) -> Seq<char>
    decreases s.len(),
{
    if s.len() > 0 && is_name_separator(s[0]) {
        trim_separators_front(s.drop_first())
    } else {
        s
    }
}

/// Drop trailing separators.
pub open spec fn trim_separators_back(s: Seq<char>) -> Seq<char>
    decreases s.len(),
{
    if s.len() > 0 && is_name_separator(s.last()) {
        trim_separators_back(s.drop_last())
    } else {
        s
    }
}

/// The mapped name with separators trimmed from both ends.
pub open spec fn trimmed_crate_name(name: Seq<char>) -> Seq<char> {
    trim_separators_back(trim_separators_front(name.map_values(|c: char| crate_name_char(c))))
}

/// The sanitized crate/binary name of a package name: the trimmed mapped
/// name, `package` when nothing is left, and `p-` in front of a name that
/// starts with a digit.
pub open spec fn sanitized_crate_name(name: Seq<char>) -> Seq<char> {
    let t = trimmed_crate_name(name);
    if t.len() == 0 {
        seq!['p', 'a', 'c', 'k', 'a', 'g', 'e']
    } else if is_ascii_digit(t[0]) {
        seq!['p', '-'] + t
    } else {
        t
    }
}

fn lower_char(c: char) -> (r: char)
    ensures
        r == ascii_lower(c),
{
    if 'A' <= c && c <= 'Z' {
        let b: u8 = c as u8;
        (b + 32) as char
    } else {
        c
    }
}

fn map_crate_name_char(c: char) -> (r: char)
    ensures
        r == crate_name_char(c),
{
    if ('a' <= c && c <= 'z') || ('A' <= c && c <= 'Z') || ('0' <= c && c <= '9') {
        lower_char(c)
    } else if c == '-' || c == '_' {
        c
    } else {
        '-'
    }
}

/// The characters of a string slice, in order.
pub fn str_chars(s: &str) -> (v: Vec<char>)
    ensures
        v@ == s@,
{
    let mut v: Vec<char> = Vec::new();
    for c in it: s.chars()
        invariant
            v@ == it.seq().take(it.index() as int),
    {
        v.push(c);
    }
    v
}

/// Appends one character to a `String` through std's `String::push`, whose
/// documented effect this contract states without proof: the string's
/// characters become the old ones followed by `c`.
#[verifier::external_body]
pub(crate) fn push_char(s: &mut String, c: char)
    ensures
        final(s)@ == old(s)@.push(c),
{
    s.push(c);
}

/// The string made of the characters `chars[start..end]`.
pub fn string_from_chars(chars: &Vec<char>, start: usize, end: usize) -> (s: String)
    requires
        start <= end <= chars.len(),
    ensures
        s@ == chars@.subrange(start as int, end as int),
{
    let mut s = String::new();
    let mut i = start;
    while i < end
        invariant
            start <= i <= end <= chars.len(),
            s@ == chars@.subrange(start as int, i as int),
        decreases end - i,
    {
        push_char(&mut s, chars[i]);
        i = i + 1;
        assert(s@ =~= chars@.subrange(start as int, i as int));
    }
    s
}

/// Sanitize a Faber package name into a valid Rust/Cargo crate and binary
/// name: ASCII letters and digits lower-cased, `-` and `_` kept, any other
/// character turned into `-`, separators trimmed from both ends, `package`
/// when nothing remains, and `p-` in front of a leading digit. A name made
/// only of whitespace maps to separators alone and so falls back to
/// `package`.
pub fn sanitize_crate_name(name: &str) -> (out: String)
    ensures
        out@ == sanitized_crate_name(name@),
{
    let chars = str_chars(name);
    let n = chars.len();
    let mut mapped: Vec<char> = Vec::new();
    let mut i: usize = 0;
    while i < n
        invariant
            i <= n == chars.len(),
            mapped@ == chars@.take(i as int).map_values(|c: char| crate_name_char(c)),
        decreases n - i,
    {
        mapped.push(map_crate_name_char(chars[i]));
        i = i + 1;
        assert(mapped@ =~= chars@.take(i as int).map_values(|c: char| crate_name_char(c)));
    }
    assert(chars@.take(n as int) =~= chars@);
    let ghost full = mapped@;
    assert(full == name@.map_values(|c: char| crate_name_char(c)));
    let mut start: usize = 0;
    assert(full.subrange(0, n as int) =~= full);
    while start < n && (mapped[start] == '-' || mapped[start] == '_')
        invariant
            start <= n == mapped.len(),
            full == mapped@,
            trim_separators_front(full) == trim_separators_front(full.subrange(start as int, n as int)),
        decreases n - start,
    {
        assert(full.subrange(start as int, n as int).drop_first() =~= full.subrange(start + 1, n as int));
        start = start + 1;
    }
    let ghost front = full.subrange(start as int, n as int);
    assert(trim_separators_front(front) == front);
    let mut end: usize = n;
    while end > start && (mapped[end - 1] == '-' || mapped[end - 1] == '_')
        invariant
            start <= end <= n == mapped.len(),
            full == mapped@,
            front == full.subrange(start as int, n as int),
            trim_separators_back(front) == trim_separators_back(full.subrange(start as int, end as int)),
        decreases end - start,
    {
        assert(full.subrange(start as int, end as int).drop_last() =~= full.subrange(start as int, end - 1));
        end = end - 1;
    }
    let ghost t = full.subrange(start as int, end as int);
    assert(trim_separators_back(t) == t);
    assert(trimmed_crate_name(name@) == t);
    if end == start {
        let s = String::from_str("package");
        proof {
            reveal_strlit("package");
        }
        assert(s@ =~= seq!['p', 'a', 'c', 'k', 'a', 'g', 'e']);
        return s;
    }
    let body = string_from_chars(&mapped, start, end);
    if '0' <= mapped[start] && mapped[start] <= '9' {
        let mut s = String::from_str("p-");
        proof {
            reveal_strlit("p-");
        }
        s.append(body.as_str());
        assert(s@ =~= seq!['p', '-'] + t);
        s
    } else {
        body
    }
}

} // verus!

verus! {

/// The characters a sanitized crate name is made of.
pub open spec fn is_crate_name_char(c: char) -> bool {
    ('a' <= c && c <= 'z') || ('0' <= c && c <= '9') || c == '-' || c == '_'
}

pub open spec fn all_crate_name_chars(s: Seq<char>) -> bool {
    forall|i: int| 0 <= i < s.len() ==> is_crate_name_char(#[trigger] s[i])
}

proof fn lemma_trim_front_keeps(s: Seq<char>)
    requires
        all_crate_name_chars(s),
    ensures
        all_crate_name_chars(trim_separators_front(s)),
    decreases s.len(),
{
    if s.len() > 0 && is_name_separator(s[0]) {
        assert forall|i: int| 0 <= i < s.drop_first().len() implies is_crate_name_char(
            #[trigger] s.drop_first()[i],
        ) by {
            assert(s.drop_first()[i] == s[i + 1]);
        }
        lemma_trim_front_keeps(s.drop_first());
    }
}

proof fn lemma_trim_back_keeps(s: Seq<char>)
    requires
        all_crate_name_chars(s),
    ensures
        all_crate_name_chars(trim_separators_back(s)),
    decreases s.len(),
{
    if s.len() > 0 && is_name_separator(s.last()) {
        assert forall|i: int| 0 <= i < s.drop_last().len() implies is_crate_name_char(
            #[trigger] s.drop_last()[i],
        ) by {
            assert(s.drop_last()[i] == s[i]);
        }
        lemma_trim_back_keeps(s.drop_last());
    }
}

/// Every sanitized crate name is non-empty and made only of lower-case ASCII
/// letters, digits, `-` and `_`.
pub proof fn lemma_sanitized_crate_name_chars(name: Seq<char>)
    ensures
        sanitized_crate_name(name).len() > 0,
        all_crate_name_chars(sanitized_crate_name(name)),
{
    let mapped = name.map_values(|c: char| crate_name_char(c));
    assert forall|i: int| 0 <= i < mapped.len() implies is_crate_name_char(#[trigger] mapped[i]) by {
        let c = name[i];
        assert(mapped[i] == crate_name_char(c));
        if 'A' <= c && c <= 'Z' {
            assert(97 <= (c as int) + 32 <= 122);
        }
    }
    lemma_trim_front_keeps(mapped);
    lemma_trim_back_keeps(trim_separators_front(mapped));
    let t = trimmed_crate_name(name);
    let out = sanitized_crate_name(name);
    if t.len() == 0 {
        assert(all_crate_name_chars(out));
    } else if is_ascii_digit(t[0]) {
        assert forall|i: int| 0 <= i < out.len() implies is_crate_name_char(#[trigger] out[i]) by {
            if i >= 2 {
                assert(out[i] == t[i - 2]);
            }
        }
    }
}

proof fn lemma_trim_front_first(s: Seq<char>)
    ensures
        trim_separators_front(s).len() > 0 ==> !is_name_separator(trim_separators_front(s)[0]),
    decreases s.len(),
{
    if s.len() > 0 && is_name_separator(s[0]) {
        lemma_trim_front_first(s.drop_first());
    }
}

proof fn lemma_trim_back_prefix(s: Seq<char>)
    ensures
        trim_separators_back(s).len() <= s.len(),
        trim_separators_back(s) == s.take(trim_separators_back(s).len() as int),
        trim_separators_back(s).len() > 0 ==> !is_name_separator(trim_separators_back(s).last()),
    decreases s.len(),
{
    if s.len() > 0 && is_name_separator(s.last()) {
        lemma_trim_back_prefix(s.drop_last());
        let r = trim_separators_back(s.drop_last());
        assert(s.drop_last().take(r.len() as int) =~= s.take(r.len() as int));
    } else {
        assert(s.take(s.len() as int) =~= s);
    }
}

/// A sanitized name begins with neither a digit nor a separator and ends
/// with no separator.
pub proof fn law_sanitized_name_ends(name: Seq<char>)
    ensures
        !is_ascii_digit(sanitized_crate_name(name)[0]),
        !is_name_separator(sanitized_crate_name(name)[0]),
        !is_name_separator(sanitized_crate_name(name).last()),
{
    let mapped = name.map_values(|c: char| crate_name_char(c));
    let front = trim_separators_front(mapped);
    let t = trimmed_crate_name(name);
    lemma_trim_front_first(mapped);
    lemma_trim_back_prefix(front);
    let out = sanitized_crate_name(name);
    if t.len() > 0 {
        assert(t[0] == front[0]);
        if is_ascii_digit(t[0]) {
            assert(out[0] == 'p');
            assert(out.last() == t.last());
        }
    }
}

/// Sanitizing a sanitized name changes nothing: the policy's output is
/// already a crate name.
pub proof fn law_sanitize_is_idempotent(name: Seq<char>)
    ensures
        sanitized_crate_name(sanitized_crate_name(name)) == sanitized_crate_name(name),
{
    let s = sanitized_crate_name(name);
    lemma_sanitized_crate_name_chars(name);
    law_sanitized_name_ends(name);
    let mapped = s.map_values(|c: char| crate_name_char(c));
    assert(mapped =~= s) by {
        assert forall|i: int| 0 <= i < s.len() implies mapped[i] == s[i] by {
            assert(is_crate_name_char(s[i]));
        }
    }
    assert(trim_separators_front(s) == s);
    assert(trim_separators_back(s) == s);
}

} // verus!

verus! {

/// Whether two character vectors hold the same characters.
pub fn chars_eq(a: &Vec<char>, b: &Vec<char>) -> (r: bool)
    ensures
        r == (a@ == b@),
{
    if a.len() != b.len() {
        return false;
    }
    let mut i: usize = 0;
    while i < a.len()
        invariant
            i <= a.len() == b.len(),
            forall|j: int| 0 <= j < i ==> a@[j] == b@[j],
        decreases a.len() - i,
    {
        if a[i] != b[i] {
            return false;
        }
        i = i + 1;
    }
    assert(a@ =~= b@);
    true
}

/// Whether two string slices hold the same characters.
pub fn text_eq(a: &str, b: &str) -> (r: bool)
    ensures
        r == (a@ == b@),
{
    let x = str_chars(a);
    let y = str_chars(b);
    chars_eq(&x, &y)
}

/// A copy of a string slice as an owned `String`.
pub fn owned(s: &str) -> (r: String)
    ensures
        r@ == s@,
{
    String::from_str(s)
}

} // verus!

verus! {

/// The ASCII digit of a value below ten.
pub open spec fn digit_char(d: nat) -> char {
    ((d + 48) as int) as char
}

/// The decimal spelling of a natural number, without leading zeros.
pub open spec fn decimal(n: nat) -> Seq<char>
    decreases n,
{
    if n < 10 {
        seq![digit_char(n)]
    } else {
        decimal(n / 10).push(digit_char(n % 10))
    }
}

/// The decimal spelling of a `u64`.
pub fn decimal_text(n: u64) -> (s: String)
    ensures
        s@ == decimal(n as nat),
{
    let mut digits: Vec<char> = Vec::new();
    let mut m: u64 = n;
    let ghost mut rest: Seq<char> = Seq::empty();
    while m >= 10
        invariant
            decimal(n as nat) == decimal(m as nat) + rest,
            digits@ == rest.reverse(),
        decreases m,
    {
        let d: u8 = (m % 10) as u8;
        let c = (d + 48) as char;
        assert(c == digit_char((m % 10) as nat));
        proof {
            assert(decimal(m as nat) == decimal((m / 10) as nat).push(digit_char((m % 10) as nat)));
            assert(decimal(m as nat) + rest =~= decimal((m / 10) as nat) + (seq![c] + rest));
            assert((seq![c] + rest).reverse() =~= rest.reverse().push(c));
            rest = seq![c] + rest;
        }
        digits.push(c);
        m = m / 10;
    }
    let d: u8 = m as u8;
    let c = (d + 48) as char;
    proof {
        assert((seq![c] + rest).reverse() =~= rest.reverse().push(c));
        assert(decimal(n as nat) =~= seq![c] + rest);
        rest = seq![c] + rest;
    }
    digits.push(c);
    let mut s = String::new();
    let mut i: usize = digits.len();
    while i > 0
        invariant
            i <= digits.len(),
            digits@ == rest.reverse(),
            s@ == rest.take((digits.len() - i) as int),
        decreases i,
    {
        i = i - 1;
        push_char(&mut s, digits[i]);
        assert(s@ =~= rest.take((digits.len() - i) as int));
    }
    assert(rest.take(rest.len() as int) =~= rest);
    s
}

} // verus!
