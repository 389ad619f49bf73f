//! Text as sequences of characters: trimming, searching, comparing, numbers.
use vstd::prelude::*;
use vstd::string::*;

verus! {

/// The characters with the Unicode property White_Space.
pub open spec fn is_space(c: char) -> bool {
    let v = c as u32;
    ||| 0x09 <= v <= 0x0d
    ||| v == 0x20
    ||| v == 0x85
    ||| v == 0xa0
    ||| v == 0x1680
    ||| 0x2000 <= v <= 0x200a
    ||| v == 0x2028
    ||| v == 0x2029
    ||| v == 0x202f
    ||| v == 0x205f
    ||| v == 0x3000
}

/// Whether a character is white space.
pub fn is_whitespace(c: char) -> (r: bool)
    ensures
        r == is_space(c),
{
    let v: u32 = c as u32;
    (0x09 <= v && v <= 0x0d) || v == 0x20 || v == 0x85 || v == 0xa0 || v == 0x1680 || (0x2000 <= v
        && v <= 0x200a) || v == 0x2028 || v == 0x2029 || v == 0x202f || v == 0x205f || v == 0x3000
}

/// `s` without the white space at its start.
pub open spec fn trimmed_start(s: Seq<char>) -> Seq<char>
    decreases s.len(),
{
    if s.len() > 0 && is_space(s[0]) {
        trimmed_start(s.subrange(1, s.len() as int))
    } else {
        s
    }
}

/// `s` without the white space at its end.
pub open spec fn trimmed_end(s: Seq<char>) -> Seq<char>
    decreases s.len(),
{
    if s.len() > 0 && is_space(s[s.len() - 1]) {
        trimmed_end(s.subrange(0, s.len() - 1))
    } else {
        s
    }
}

/// `s` without the white space at either end.
pub open spec fn trimmed(s: Seq<char>) -> Seq<char> {
    trimmed_end(trimmed_start(s))
}

/// `needle` stands in `hay` at position `i`.
pub open spec fn occurs_at(hay: Seq<char>, needle: Seq<char>, i: int) -> bool {
    0 <= i && i + needle.len() <= hay.len() && hay.subrange(i, i + needle.len()) == needle
}

/// `needle` stands somewhere in `hay`.
pub open spec fn has(hay: Seq<char>, needle: Seq<char>) -> bool {
    exists|i: int| occurs_at(hay, needle, i)
}

/// `hay` starts with `needle`.
pub open spec fn starts(hay: Seq<char>, needle: Seq<char>) -> bool {
    occurs_at(hay, needle, 0)
}

/// `needle` stands in `hay` at `i` and nowhere before.
pub open spec fn first_at(hay: Seq<char>, needle: Seq<char>, i: int) -> bool {
    &&& occurs_at(hay, needle, i)
    &&& forall|j: int| j < i ==> !occurs_at(hay, needle, j)
}

/// The characters of a string.
pub fn chars_of(s: &str) -> (r: Vec<char>)
    ensures
        r@ == s@,
{
    let mut out: Vec<char> = Vec::new();
    for c in it: s.chars()
        invariant
            out@ == it.seq().subrange(0, it.index() as int),
            it.seq() == s@,
    {
        out.push(c);
        assert(out@ =~= it.seq().subrange(0, it.index() + 1));
    }
    out
}


/// Whether `needle` stands in `hay` at position `i`.
fn matches_at(hay: &Vec<char>, needle: &Vec<char>, i: usize) -> (r: bool)
    ensures
        r == occurs_at(hay@, needle@, i as int),
{
    if i > hay.len() || needle.len() > hay.len() - i {
        return false;
    }
    let mut j: usize = 0;
    while j < needle.len()
        invariant
            j <= needle.len(),
            i + needle.len() <= hay.len(),
            forall|k: int| 0 <= k < j ==> hay@[i + k] == needle@[k],
        decreases needle.len() - j,
    {
        if hay[i + j] != needle[j] {
            assert(hay@.subrange(i as int, i + needle.len())[j as int] != needle@[j as int]);
            return false;
        }
        j = j + 1;
    }
    assert(hay@.subrange(i as int, i + needle.len()) =~= needle@);
    true
}

/// The first position at which `needle` stands in `hay`.
pub fn find(hay: &Vec<char>, needle: &str) -> (r: Option<usize>)
    ensures
        r is Some <==> has(hay@, needle@),
        r matches Some(i) ==> first_at(hay@, needle@, i as int),
{
    let needle_chars = chars_of(needle);
    let mut i: usize = 0;
    while i < hay.len()
        invariant
            needle_chars@ == needle@,
            i <= hay.len(),
            forall|j: int| j < i ==> !occurs_at(hay@, needle@, j),
        decreases hay.len() - i,
    {
        if matches_at(hay, &needle_chars, i) {
            return Some(i);
        }
        i = i + 1;
    }
    if matches_at(hay, &needle_chars, i) {
        return Some(i);
    }
    assert forall|j: int| !occurs_at(hay@, needle@, j) by {}
    None
}

/// Whether `needle` stands somewhere in `hay`.
pub fn contains(hay: &Vec<char>, needle: &str) -> (r: bool)
    ensures
        r == has(hay@, needle@),
{
    find(hay, needle).is_some()
}

/// Whether `hay` starts with `needle`.
pub fn starts_with(hay: &Vec<char>, needle: &str) -> (r: bool)
    ensures
        r == starts(hay@, needle@),
{
    let needle_chars = chars_of(needle);
    matches_at(hay, &needle_chars, 0)
}

/// Where the trimmed text begins and ends.
proof fn lemma_trimmed(s: Seq<char>, from: int, to: int)
    requires
        0 <= from <= to <= s.len(),
        forall|i: int| 0 <= i < from ==> is_space(s[i]),
        forall|i: int| to <= i < s.len() ==> is_space(s[i]),
        from < to ==> !is_space(s[from]) && !is_space(s[to - 1]),
        from == to ==> from == s.len(),
    ensures
        trimmed(s) == s.subrange(from, to),
{
    lemma_trimmed_start(s, from);
    let t = s.subrange(from, s.len() as int);
    lemma_trimmed_end(t, to - from);
    assert(t.subrange(0, to - from) =~= s.subrange(from, to));
}

proof fn lemma_trimmed_start(s: Seq<char>, from: int)
    requires
        0 <= from <= s.len(),
        forall|i: int| 0 <= i < from ==> is_space(s[i]),
        from < s.len() ==> !is_space(s[from]),
    ensures
        trimmed_start(s) == s.subrange(from, s.len() as int),
    decreases from,
{
    if from == 0 {
        assert(s.subrange(0, s.len() as int) =~= s);
    } else {
        let t = s.subrange(1, s.len() as int);
        lemma_trimmed_start(t, from - 1);
        assert(t.subrange(from - 1, t.len() as int) =~= s.subrange(from, s.len() as int));
    }
}

proof fn lemma_trimmed_end(s: Seq<char>, to: int)
    requires
        0 <= to <= s.len(),
        forall|i: int| to <= i < s.len() ==> is_space(s[i]),
        to > 0 ==> !is_space(s[to - 1]),
    ensures
        trimmed_end(s) == s.subrange(0, to),
    decreases s.len(),
{
    if to == s.len() {
        assert(s.subrange(0, to) =~= s);
    } else {
        let t = s.subrange(0, s.len() - 1);
        lemma_trimmed_end(t, to);
        assert(t.subrange(0, to) =~= s.subrange(0, to));
    }
}

/// The text without the white space at either end.
pub fn trim<'a>(s: &'a str) -> (r: &'a str)
    ensures
        r@ == trimmed(s@),
{
    let chars = chars_of(s);
    let mut from: usize = 0;
    while from < chars.len() && is_whitespace(chars[from])
        invariant
            from <= chars.len(),
            forall|i: int| 0 <= i < from ==> is_space(chars@[i]),
        decreases chars.len() - from,
    {
        from = from + 1;
    }
    let mut to: usize = chars.len();
    while from < to && is_whitespace(chars[to - 1])
        invariant
            from <= to <= chars.len(),
            forall|i: int| to <= i < chars.len() ==> is_space(chars@[i]),
        decreases to,
    {
        to = to - 1;
    }
    proof {
        lemma_trimmed(s@, from as int, to as int);
    }
    s.substring_char(from, to)
}

/// The lower case of an ASCII letter; any other character unchanged.
pub open spec fn ascii_lower(c: char) -> char {
    if 'A' <= c <= 'Z' {
        (c as u32 + 32) as char
    } else {
        c
    }
}

/// Two texts are the same but for the case of ASCII letters in the first.
pub open spec fn lowers_to(s: Seq<char>, lower: Seq<char>) -> bool {
    s.map_values(|c: char| ascii_lower(c)) == lower
}

/// Whether `c` in lower case is `lower`.
fn lowers_to_char(c: char, lower: char) -> (r: bool)
    ensures
        r == (ascii_lower(c) == lower),
{
    let v: u32 = c as u32;
    let w: u32 = lower as u32;
    if 0x41 <= v && v <= 0x5a {
        v + 32 == w
    } else {
        v == w
    }
}

/// Whether the characters from `from` on read `lower` once their ASCII letters
/// are in lower case.
pub fn tail_lowers_to(s: &Vec<char>, from: usize, lower: &str) -> (r: bool)
    requires
        from <= s.len(),
    ensures
        r == lowers_to(s@.subrange(from as int, s.len() as int), lower@),
{
    let ghost tail = s@.subrange(from as int, s.len() as int);
    let ghost mapped = tail.map_values(|c: char| ascii_lower(c));
    let wanted = chars_of(lower);
    if wanted.len() != s.len() - from {
        return false;
    }
    let mut i: usize = 0;
    while i < wanted.len()
        invariant
            i <= wanted.len(),
            from + wanted.len() == s.len(),
            wanted@ == lower@,
            tail == s@.subrange(from as int, s.len() as int),
            mapped == tail.map_values(|c: char| ascii_lower(c)),
            forall|j: int| 0 <= j < i ==> mapped[j] == lower@[j],
        decreases wanted.len() - i,
    {
        assert(mapped[i as int] == ascii_lower(s@[from + i]));
        if !lowers_to_char(s[from + i], wanted[i]) {
            assert(mapped[i as int] != lower@[i as int]);
            return false;
        }
        i = i + 1;
    }
    assert(mapped =~= lower@);
    true
}

/// The decimal digit of a number below ten.
pub open spec fn digit(n: nat) -> char {
    (48 + n) as char
}

/// A number in decimal, without leading zeros.
pub open spec fn decimal(n: nat) -> Seq<char>
    decreases n,
{
    if n < 10 {
        seq![digit(n)]
    } else {
        decimal(n / 10).push(digit(n % 10))
    }
}

fn digit_text(n: u16) -> (r: &'static str)
    requires
        n < 10,
    ensures
        r@ == seq![digit(n as nat)],
{
    proof {
        reveal_strlit("0");
        reveal_strlit("1");
        reveal_strlit("2");
        reveal_strlit("3");
        reveal_strlit("4");
        reveal_strlit("5");
        reveal_strlit("6");
        reveal_strlit("7");
        reveal_strlit("8");
        reveal_strlit("9");
    }
    let r = match n {
        0 => "0",
        1 => "1",
        2 => "2",
        3 => "3",
        4 => "4",
        5 => "5",
        6 => "6",
        7 => "7",
        8 => "8",
        _ => "9",
    };
    assert(r@ =~= seq![digit(n as nat)]);
    r
}

/// Appends a number in decimal.
pub fn append_decimal(out: &mut String, n: u16)
    ensures
        final(out)@ == old(out)@ + decimal(n as nat),
    decreases n,
{
    if n >= 10 {
        append_decimal(out, n / 10);
    }
    out.append(digit_text(n % 10));
    assert(out@ =~= old(out)@ + decimal(n as nat));
}

/// A text starts with another if and only if it is at least as long and agrees
/// with it in every character.
pub proof fn law_starts(hay: Seq<char>, needle: Seq<char>)
    ensures
        starts(hay, needle) <==> needle.len() <= hay.len() && forall|k: int|
            0 <= k < needle.len() ==> hay[k] == needle[k],
{
    law_occurs_at(hay, needle, 0);
}

/// A text stands at a place if and only if it fits there and agrees in every
/// character.
pub proof fn law_occurs_at(hay: Seq<char>, needle: Seq<char>, i: int)
    ensures
        occurs_at(hay, needle, i) <==> 0 <= i && i + needle.len() <= hay.len() && forall|k: int|
            0 <= k < needle.len() ==> hay[i + k] == #[trigger] needle[k],
{
    if 0 <= i && i + needle.len() <= hay.len() {
        let part = hay.subrange(i, i + needle.len());
        if forall|k: int| 0 <= k < needle.len() ==> hay[i + k] == #[trigger] needle[k] {
            assert(part =~= needle);
        }
        if part == needle {
            assert forall|k: int| 0 <= k < needle.len() implies hay[i + k] == #[trigger] needle[k] by {
                assert(part[k] == hay[i + k]);
            }
        }
    }
}

/// A text holds another if and only if it is made of three parts of which the
/// other is the middle one.
pub proof fn law_has(hay: Seq<char>, needle: Seq<char>)
    ensures
        has(hay, needle) <==> exists|before: Seq<char>, after: Seq<char>|
            hay == #[trigger] (before + needle + after),
{
    if has(hay, needle) {
        let i = choose|i: int| occurs_at(hay, needle, i);
        law_occurs_at(hay, needle, i);
        let before = hay.subrange(0, i);
        let after = hay.subrange(i + needle.len(), hay.len() as int);
        assert(hay =~= before + needle + after);
    }
    if exists|before: Seq<char>, after: Seq<char>| hay == #[trigger] (before + needle + after) {
        let (before, after) = choose|before: Seq<char>, after: Seq<char>|
            hay == #[trigger] (before + needle + after);
        law_occurs_at(hay, needle, before.len() as int);
    }
}

/// A text that holds another has a first place for it: the other stands there,
/// and stands nowhere before.
pub proof fn law_first_at(hay: Seq<char>, needle: Seq<char>)
    requires
        has(hay, needle),
    ensures
        exists|i: int|
            {
                &&& #[trigger] first_at(hay, needle, i)
                &&& occurs_at(hay, needle, i)
                &&& forall|j: int| occurs_at(hay, needle, j) ==> i <= j
            },
{
    let i = choose|i: int| occurs_at(hay, needle, i);
    lemma_first_at(hay, needle, i);
}

proof fn lemma_first_at(hay: Seq<char>, needle: Seq<char>, i: int)
    requires
        occurs_at(hay, needle, i),
    ensures
        exists|f: int|
            {
                &&& #[trigger] first_at(hay, needle, f)
                &&& occurs_at(hay, needle, f)
                &&& forall|j: int| occurs_at(hay, needle, j) ==> f <= j
            },
    decreases i,
{
    if exists|j: int| j < i && occurs_at(hay, needle, j) {
        let j = choose|j: int| j < i && occurs_at(hay, needle, j);
        lemma_first_at(hay, needle, j);
    } else {
        assert(first_at(hay, needle, i));
    }
}

/// Trimming takes white space off both ends, all of it, and nothing else: the
/// text is the trimmed one between two runs of white space, and the trimmed
/// one neither begins nor ends with any.
pub proof fn law_trimmed(s: Seq<char>) -> (ends: (Seq<char>, Seq<char>))
    ensures
        s == ends.0 + trimmed(s) + ends.1,
        forall|i: int| 0 <= i < ends.0.len() ==> is_space(ends.0[i]),
        forall|i: int| 0 <= i < ends.1.len() ==> is_space(ends.1[i]),
        trimmed(s).len() > 0 ==> !is_space(trimmed(s)[0]) && !is_space(
            trimmed(s)[trimmed(s).len() - 1],
        ),
        trimmed(s).len() == 0 <==> forall|i: int| 0 <= i < s.len() ==> is_space(s[i]),
{
    let lead = lemma_start_split(s);
    let t = trimmed_start(s);
    let trail = lemma_end_split(t);
    let r = trimmed(s);
    assert(s =~= lead + r + trail);
    if r.len() > 0 {
        assert(t[0] == r[0]);
        assert(s[lead.len() as int] == r[0]);
    } else {
        assert forall|i: int| 0 <= i < s.len() implies is_space(s[i]) by {
            if i < lead.len() {
                assert(s[i] == lead[i]);
            } else {
                assert(s[i] == trail[i - lead.len()]);
            }
        }
    }
    (lead, trail)
}

proof fn lemma_start_split(s: Seq<char>) -> (lead: Seq<char>)
    ensures
        s == lead + trimmed_start(s),
        forall|i: int| 0 <= i < lead.len() ==> is_space(lead[i]),
        trimmed_start(s).len() > 0 ==> !is_space(trimmed_start(s)[0]),
    decreases s.len(),
{
    if s.len() > 0 && is_space(s[0]) {
        let rest = s.subrange(1, s.len() as int);
        let lead = lemma_start_split(rest);
        let all = seq![s[0]] + lead;
        assert(s =~= seq![s[0]] + rest);
        assert(s =~= all + trimmed_start(s));
        all
    } else {
        assert(s =~= Seq::<char>::empty() + s);
        Seq::empty()
    }
}

proof fn lemma_end_split(s: Seq<char>) -> (trail: Seq<char>)
    ensures
        s == trimmed_end(s) + trail,
        forall|i: int| 0 <= i < trail.len() ==> is_space(trail[i]),
        trimmed_end(s).len() > 0 ==> !is_space(trimmed_end(s)[trimmed_end(s).len() - 1]),
    decreases s.len(),
{
    if s.len() > 0 && is_space(s[s.len() - 1]) {
        let rest = s.subrange(0, s.len() - 1);
        let trail = lemma_end_split(rest);
        let all = trail.push(s[s.len() - 1]);
        assert(s =~= rest.push(s[s.len() - 1]));
        assert(s =~= trimmed_end(s) + all);
        all
    } else {
        assert(s =~= s + Seq::<char>::empty());
        Seq::empty()
    }
}

/// The blank, the tab and the line ends are white space; visible ASCII
/// characters, among them all letters, digits and punctuation, are not.
pub proof fn law_ascii_space(c: char)
    requires
        c < '\u{80}',
    ensures
        is_space(c) <==> c == ' ' || c == '\t' || c == '\n' || c == '\u{b}' || c == '\u{c}' || c
            == '\r',
{
}

/// A text in lower case has the same length and no capital letter of ASCII;
/// each character is the same as before, or the small letter 32 places behind
/// a capital one.
pub proof fn law_lowers_to(s: Seq<char>, lower: Seq<char>)
    ensures
        lowers_to(s, lower) <==> s.len() == lower.len() && forall|i: int|
            0 <= i < s.len() ==> if 'A' <= s[i] <= 'Z' {
                lower[i] == (s[i] as u32 + 32) as char
            } else {
                lower[i] == #[trigger] s[i]
            },
        lowers_to(s, lower) ==> forall|i: int|
            0 <= i < lower.len() ==> !('A' <= #[trigger] lower[i] <= 'Z'),
{
    let mapped = s.map_values(|c: char| ascii_lower(c));
    assert(mapped.len() == s.len());
    assert forall|i: int| 0 <= i < s.len() implies #[trigger] mapped[i] == ascii_lower(s[i]) by {}
    if lowers_to(s, lower) {
        assert forall|i: int| 0 <= i < s.len() implies if 'A' <= s[i] <= 'Z' {
            lower[i] == (s[i] as u32 + 32) as char
        } else {
            lower[i] == #[trigger] s[i]
        } by {
            assert(mapped[i] == lower[i]);
        }
        assert forall|i: int| 0 <= i < lower.len() implies !('A' <= #[trigger] lower[i] <= 'Z') by {
            assert(mapped[i] == lower[i]);
            let c = s[i];
        }
    }
    if s.len() == lower.len() && forall|i: int|
        0 <= i < s.len() ==> if 'A' <= s[i] <= 'Z' {
            lower[i] == (s[i] as u32 + 32) as char
        } else {
            lower[i] == #[trigger] s[i]
        } {
        assert forall|i: int| 0 <= i < s.len() implies mapped[i] == lower[i] by {
            let c = s[i];
            let l = lower[i];
        }
        assert(mapped =~= lower);
    }
}

/// The number that a text of decimal digits reads as.
pub open spec fn reading(s: Seq<char>) -> int
    decreases s.len(),
{
    if s.len() == 0 {
        0
    } else {
        10 * reading(s.subrange(0, s.len() - 1)) + (s[s.len() - 1] as u32 - '0' as u32)
    }
}

/// A number in decimal reads as that number, is made of digits, and does not
/// begin with a zero unless it is zero.
pub proof fn law_decimal(n: nat)
    ensures
        reading(decimal(n)) == n,
        decimal(n).len() > 0,
        forall|i: int| 0 <= i < decimal(n).len() ==> '0' <= #[trigger] decimal(n)[i] <= '9',
        decimal(n)[0] == '0' ==> n == 0,
    decreases n,
{
    reveal_with_fuel(reading, 2);
    let s = decimal(n);
    if n >= 10 {
        law_decimal(n / 10);
        assert(s.subrange(0, s.len() - 1) =~= decimal(n / 10));
        assert(s[0] == decimal(n / 10)[0]);
    } else {
        assert(s.subrange(0, 0) =~= Seq::<char>::empty());
    }
}

} // verus!
