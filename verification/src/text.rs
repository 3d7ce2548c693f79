//! Character-level text operations, stated over `Seq<char>`.

use vstd::prelude::*;
use vstd::string::*;

verus! {

/// The Unicode `White_Space` property.
pub open spec fn is_space(c: char) -> bool {
    ||| '\u{9}' <= c <= '\u{d}'
    ||| c == ' '
    ||| c == '\u{85}'
    ||| c == '\u{a0}'
    ||| c == '\u{1680}'
    ||| '\u{2000}' <= c <= '\u{200a}'
    ||| c == '\u{2028}'
    ||| c == '\u{2029}'
    ||| c == '\u{202f}'
    ||| c == '\u{205f}'
    ||| c == '\u{3000}'
}

/// Whether a Unicode scalar is white space.
pub fn is_whitespace(c: char) -> (r: bool)
    ensures
        r == is_space(c),
{
    ('\u{9}' <= c && c <= '\u{d}') || c == ' ' || c == '\u{85}' || c == '\u{a0}' || c == '\u{1680}'
        || ('\u{2000}' <= c && c <= '\u{200a}') || c == '\u{2028}' || c == '\u{2029}' || c
        == '\u{202f}' || c == '\u{205f}' || c == '\u{3000}'
}

/// Characters that trimming drops: white space, and NUL where `nul` is set.
pub open spec fn is_padding(c: char, nul: bool) -> bool {
    is_space(c) || (nul && c == '\0')
}

/// `s` without its longest prefix of padding.
pub open spec fn trim_front(s: Seq<char>, nul: bool) -> Seq<char>
    decreases s.len(),
{
    if s.len() > 0 && is_padding(s[0], nul) {
        trim_front(s.drop_first(), nul)
    } else {
        s
    }
}

/// `s` without its longest suffix of padding.
pub open spec fn trim_back(s: Seq<char>, nul: bool) -> Seq<char>
    decreases s.len(),
{
    if s.len() > 0 && is_padding(s.last(), nul) {
        trim_back(s.drop_last(), nul)
    } else {
        s
    }
}

/// `s` without padding at either end.
pub open spec fn trimmed(s: Seq<char>, nul: bool) -> Seq<char> {
    trim_back(trim_front(s, nul), nul)
}

/// Lower case of an ASCII letter; any other character as it is.
pub open spec fn ascii_lower(c: char) -> char {
    if 'A' <= c <= 'Z' {
        (c as u32 + 32) as char
    } else {
        c
    }
}

/// Equality that ignores ASCII case.
pub open spec fn same_ignoring_case(a: Seq<char>, b: Seq<char>) -> bool {
    a.len() == b.len() && forall|i: int|
        0 <= i < a.len() ==> ascii_lower(#[trigger] a[i]) == ascii_lower(b[i])
}

/// `part` occurs in `s` at position `at`.
pub open spec fn occurs_at(s: Seq<char>, part: Seq<char>, at: int) -> bool {
    0 <= at <= s.len() - part.len() && s.subrange(at, at + part.len()) == part
}

/// `part` occurs somewhere in `s`.
pub open spec fn has_part(s: Seq<char>, part: Seq<char>) -> bool {
    exists|at: int| occurs_at(s, part, at)
}

/// The characters of `s`.
pub fn chars_of(s: &str) -> (r: Vec<char>)
    ensures
        r@ == s@,
{
    let mut r: Vec<char> = Vec::new();
    for c in it: s.chars()
        invariant
            r@ == it.seq().take(it.index() as int),
            it.seq() == s@,
    {
        r.push(c);
    }
    assert(s@.take(s@.len() as int) =~= s@);
    r
}

/// Dropping padding from the front of `s` one character at a time.
proof fn lemma_trim_front_at(s: Seq<char>, nul: bool, start: int)
    requires
        0 <= start <= s.len(),
        forall|i: int| 0 <= i < start ==> is_padding(#[trigger] s[i], nul),
    ensures
        trim_front(s, nul) == trim_front(s.subrange(start, s.len() as int), nul),
    decreases start,
{
    if start == 0 {
        assert(s.subrange(0, s.len() as int) =~= s);
    } else {
        let rest = s.drop_first();
        assert forall|i: int| 0 <= i < start - 1 implies is_padding(#[trigger] rest[i], nul) by {
            assert(rest[i] == s[i + 1]);
        }
        lemma_trim_front_at(rest, nul, start - 1);
        assert(rest.subrange(start - 1, rest.len() as int) =~= s.subrange(start, s.len() as int));
    }
}

/// Dropping padding from the back of `s` one character at a time.
proof fn lemma_trim_back_at(s: Seq<char>, nul: bool, end: int)
    requires
        0 <= end <= s.len(),
        forall|i: int| end <= i < s.len() ==> is_padding(#[trigger] s[i], nul),
    ensures
        trim_back(s, nul) == trim_back(s.subrange(0, end), nul),
    decreases s.len() - end,
{
    if end == s.len() {
        assert(s.subrange(0, end) =~= s);
    } else {
        let rest = s.drop_last();
        lemma_trim_back_at(rest, nul, end);
        assert(rest.subrange(0, end) =~= s.subrange(0, end));
    }
}

/// `s` without padding at either end: white space, and NUL where `nul` is set.
pub fn trim_padding(s: &str, nul: bool) -> (r: &str)
    ensures
        r@ == trimmed(s@, nul),
{
    let all = chars_of(s);
    let mut start: usize = 0;
    while start < all.len() && (is_whitespace(all[start]) || (nul && all[start] == '\0'))
        invariant
            start <= all.len(),
            forall|i: int| 0 <= i < start ==> is_padding(#[trigger] all@[i], nul),
        decreases all.len() - start,
    {
        start = start + 1;
    }
    let mut end: usize = all.len();
    while start < end && (is_whitespace(all[end - 1]) || (nul && all[end - 1] == '\0'))
        invariant
            start <= end <= all.len(),
            forall|i: int| end <= i < all.len() ==> is_padding(#[trigger] all@[i], nul),
        decreases end - start,
    {
        end = end - 1;
    }
    proof {
        let front = s@.subrange(start as int, s@.len() as int);
        lemma_trim_front_at(s@, nul, start as int);
        assert(front.len() > 0 ==> front[0] == s@[start as int]);
        assert(trim_front(s@, nul) == front);
        assert forall|i: int| end - start <= i < front.len() implies is_padding(
            #[trigger] front[i],
            nul,
        ) by {
            assert(front[i] == s@[i + start]);
        }
        lemma_trim_back_at(front, nul, end - start);
        let kept = front.subrange(0, end - start);
        assert(kept =~= s@.subrange(start as int, end as int));
        assert(kept.len() > 0 ==> kept.last() == s@[end - 1]);
    }
    s.substring_char(start, end)
}

/// Whether two texts are equal up to ASCII case.
pub fn eq_ignoring_case(a: &str, b: &str) -> (r: bool)
    ensures
        r == same_ignoring_case(a@, b@),
{
    let left = chars_of(a);
    let right = chars_of(b);
    if left.len() != right.len() {
        return false;
    }
    let mut i: usize = 0;
    while i < left.len()
        invariant
            i <= left.len() == right.len(),
            left@ == a@,
            right@ == b@,
            forall|j: int| 0 <= j < i ==> ascii_lower(#[trigger] a@[j]) == ascii_lower(b@[j]),
        decreases left.len() - i,
    {
        if lower(left[i]) != lower(right[i]) {
            assert(ascii_lower(a@[i as int]) != ascii_lower(b@[i as int]));
            return false;
        }
        i = i + 1;
    }
    true
}

/// Lower case of an ASCII letter; any other character as it is.
pub fn lower(c: char) -> (r: char)
    ensures
        r == ascii_lower(c),
{
    if 'A' <= c && c <= 'Z' {
        (c as u8 + 32) as char
    } else {
        c
    }
}

/// Whether `part` occurs in `s`.
pub fn contains_text(s: &str, part: &str) -> (r: bool)
    ensures
        r == has_part(s@, part@),
{
    let whole = chars_of(s);
    let wanted = chars_of(part);
    if wanted.len() > whole.len() {
        return false;
    }
    let last: usize = whole.len() - wanted.len();
    let mut at: usize = 0;
    while at <= last
        invariant
            whole@ == s@,
            wanted@ == part@,
            last == whole.len() - wanted.len(),
            at <= last + 1,
            forall|k: int| 0 <= k < at ==> !occurs_at(s@, part@, k),
        decreases last + 1 - at,
    {
        if matches_at(&whole, &wanted, at) {
            return true;
        }
        if at == last {
            return false;
        }
        at = at + 1;
    }
    false
}

/// Whether `wanted` occurs in `whole` at `at`.
fn matches_at(whole: &Vec<char>, wanted: &Vec<char>, at: usize) -> (r: bool)
    requires
        at + wanted.len() <= whole.len(),
    ensures
        r == occurs_at(whole@, wanted@, at as int),
{
    let mut i: usize = 0;
    while i < wanted.len()
        invariant
            i <= wanted.len(),
            at + wanted.len() <= whole.len(),
            forall|j: int| 0 <= j < i ==> #[trigger] wanted@[j] == whole@[at + j],
        decreases wanted.len() - i,
    {
        if whole[at + i] != wanted[i] {
            assert(whole@.subrange(at as int, at + wanted@.len())[i as int] == whole@[at + i]);
            return false;
        }
        i = i + 1;
    }
    assert(whole@.subrange(at as int, at + wanted@.len()) =~= wanted@);
    true
}

/// `a` followed by `b`.
pub fn concat2(a: &str, b: &str) -> (r: String)
    ensures
        r@ == a@ + b@,
{
    let mut r = a.to_owned();
    r.append(b);
    r
}

/// `a` followed by `b` and `c`.
pub fn concat3(a: &str, b: &str, c: &str) -> (r: String)
    ensures
        r@ == a@ + b@ + c@,
{
    let mut r = a.to_owned();
    r.append(b);
    r.append(c);
    r
}

/// The same texts once more.
pub fn copy_texts(texts: &Vec<String>) -> (r: Vec<String>)
    ensures
        r.deep_view() == texts.deep_view(),
{
    let mut r: Vec<String> = Vec::new();
    let mut i: usize = 0;
    while i < texts.len()
        invariant
            i <= texts.len(),
            r.deep_view() =~= texts.deep_view().take(i as int),
        decreases texts.len() - i,
    {
        let ghost so_far = r.deep_view();
        r.push(texts[i].clone());
        assert(r.deep_view() =~= so_far.push(texts.deep_view()[i as int]));
        i = i + 1;
    }
    assert(r.deep_view() =~= texts.deep_view());
    r
}

/// The same text once more, where there is one.
pub fn copy_text(text: &Option<String>) -> (r: Option<String>)
    ensures
        r.deep_view() == text.deep_view(),
{
    match text {
        Some(text) => Some(text.clone()),
        None => None,
    }
}

/// Whether two texts are the same.
pub fn text_eq(a: &str, b: &str) -> (r: bool)
    ensures
        r == (a@ == b@),
{
    a.to_owned() == b.to_owned()
}

proof fn lemma_trim_front_padded(before: Seq<char>, s: Seq<char>, nul: bool)
    requires
        forall|i: int| 0 <= i < before.len() ==> is_padding(#[trigger] before[i], nul),
    ensures
        trim_front(before + s, nul) == trim_front(s, nul),
    decreases before.len(),
{
    if before.len() > 0 {
        assert((before + s)[0] == before[0]);
        assert((before + s).drop_first() =~= before.drop_first() + s);
        assert forall|i: int| 0 <= i < before.drop_first().len() implies is_padding(
            #[trigger] before.drop_first()[i],
            nul,
        ) by {
            assert(before.drop_first()[i] == before[i + 1]);
        }
        lemma_trim_front_padded(before.drop_first(), s, nul);
    } else {
        assert(before + s =~= s);
    }
}

proof fn lemma_trim_back_padded(s: Seq<char>, after: Seq<char>, nul: bool)
    requires
        forall|i: int| 0 <= i < after.len() ==> is_padding(#[trigger] after[i], nul),
    ensures
        trim_back(s + after, nul) == trim_back(s, nul),
    decreases after.len(),
{
    if after.len() > 0 {
        assert((s + after).last() == after[after.len() - 1]);
        assert((s + after).drop_last() =~= s + after.drop_last());
        lemma_trim_back_padded(s, after.drop_last(), nul);
    } else {
        assert(s + after =~= s);
    }
}

/// Dropping padding from the front reaches what follows only where nothing else is left.
proof fn lemma_trim_front_append(s: Seq<char>, after: Seq<char>, nul: bool)
    requires
        forall|i: int| 0 <= i < after.len() ==> is_padding(#[trigger] after[i], nul),
    ensures
        trim_front(s + after, nul) == if trim_front(s, nul).len() == 0 {
            Seq::<char>::empty()
        } else {
            trim_front(s, nul) + after
        },
    decreases s.len(),
{
    if s.len() == 0 {
        assert(s + after =~= after + s);
        lemma_trim_front_padded(after, s, nul);
    } else {
        assert((s + after)[0] == s[0]);
        if is_padding(s[0], nul) {
            assert((s + after).drop_first() =~= s.drop_first() + after);
            lemma_trim_front_append(s.drop_first(), after, nul);
        }
    }
}

/// Padding around a text makes no difference to what is left of it.
pub proof fn padding_is_trimmed(before: Seq<char>, s: Seq<char>, after: Seq<char>, nul: bool)
    requires
        forall|i: int| 0 <= i < before.len() ==> is_padding(#[trigger] before[i], nul),
        forall|i: int| 0 <= i < after.len() ==> is_padding(#[trigger] after[i], nul),
    ensures
        trimmed(before + s + after, nul) == trimmed(s, nul),
{
    assert(before + s + after =~= before + (s + after));
    lemma_trim_front_padded(before, s + after, nul);
    lemma_trim_front_append(s, after, nul);
    if trim_front(s, nul).len() > 0 {
        lemma_trim_back_padded(trim_front(s, nul), after, nul);
    }
}

proof fn lemma_trim_front_splits(s: Seq<char>, nul: bool) -> (before: Seq<char>)
    ensures
        s == before + trim_front(s, nul),
        forall|i: int| 0 <= i < before.len() ==> is_padding(#[trigger] before[i], nul),
        trim_front(s, nul).len() > 0 ==> !is_padding(trim_front(s, nul)[0], nul),
    decreases s.len(),
{
    if s.len() > 0 && is_padding(s[0], nul) {
        let rest = lemma_trim_front_splits(s.drop_first(), nul);
        let before = seq![s[0]] + rest;
        let core = trim_front(s, nul);
        assert(s =~= seq![s[0]] + s.drop_first());
        assert(before + core =~= seq![s[0]] + (rest + core));
        before
    } else {
        assert(s =~= Seq::<char>::empty() + s);
        Seq::empty()
    }
}

proof fn lemma_trim_back_splits(s: Seq<char>, nul: bool) -> (after: Seq<char>)
    ensures
        s == trim_back(s, nul) + after,
        forall|i: int| 0 <= i < after.len() ==> is_padding(#[trigger] after[i], nul),
        trim_back(s, nul).len() > 0 ==> !is_padding(trim_back(s, nul).last(), nul),
    decreases s.len(),
{
    if s.len() > 0 && is_padding(s.last(), nul) {
        let rest = lemma_trim_back_splits(s.drop_last(), nul);
        let after = rest.push(s.last());
        let core = trim_back(s, nul);
        assert(s =~= s.drop_last().push(s.last()));
        assert(core + after =~= (core + rest).push(s.last()));
        after
    } else {
        assert(s =~= s + Seq::<char>::empty());
        Seq::empty()
    }
}

/// What is trimmed away is padding alone, and what is left has none at either end: white space,
/// and NUL where that is asked for. Nothing inside the text is lost.
pub proof fn only_padding_is_trimmed(s: Seq<char>, nul: bool) -> (around: (Seq<char>, Seq<char>))
    ensures
        s == around.0 + trimmed(s, nul) + around.1,
        forall|i: int|
            0 <= i < around.0.len() ==> is_space(#[trigger] around.0[i]) || nul && around.0[i]
                == '\0',
        forall|i: int|
            0 <= i < around.1.len() ==> is_space(#[trigger] around.1[i]) || nul && around.1[i]
                == '\0',
        trimmed(s, nul).len() > 0 ==> {
            &&& !is_space(trimmed(s, nul)[0]) && !is_space(trimmed(s, nul).last())
            &&& nul ==> trimmed(s, nul)[0] != '\0' && trimmed(s, nul).last() != '\0'
        },
{
    let front = trim_front(s, nul);
    let before = lemma_trim_front_splits(s, nul);
    let after = lemma_trim_back_splits(front, nul);
    assert(s =~= before + trimmed(s, nul) + after);
    assert(trimmed(s, nul).len() > 0 ==> trimmed(s, nul)[0] == front[0]);
    (before, after)
}

/// A text occurs in whatever is built around it.
pub proof fn a_part_is_found_wherever_it_stands(
    before: Seq<char>,
    part: Seq<char>,
    after: Seq<char>,
)
    ensures
        has_part(before + part + after, part),
{
    let whole = before + part + after;
    assert(whole.subrange(before.len() as int, (before.len() + part.len()) as int) =~= part);
    assert(occurs_at(whole, part, before.len() as int));
}

/// A text that was found in another stands there between what is before and after it.
pub proof fn a_found_part_stands_in_the_text(s: Seq<char>, part: Seq<char>) -> (around: (
    Seq<char>,
    Seq<char>,
))
    requires
        has_part(s, part),
    ensures
        s == around.0 + part + around.1,
{
    let at = choose|at: int| occurs_at(s, part, at);
    let before = s.take(at);
    let after = s.skip(at + part.len());
    assert(s =~= before + part + after);
    (before, after)
}

/// A part of a text is a part of whatever the text is put together with.
pub proof fn a_part_of_a_part_is_found()
    ensures
        forall|part: Seq<char>| #[trigger] has_part(part, part),
        forall|x: Seq<char>, y: Seq<char>, part: Seq<char>|
            has_part(x, part) || has_part(y, part) ==> #[trigger] has_part(x + y, part),
{
    assert forall|part: Seq<char>| #[trigger] has_part(part, part) by {
        let none = Seq::<char>::empty();
        assert(none + part + none =~= part);
        a_part_is_found_wherever_it_stands(none, part, none);
    }
    assert forall|x: Seq<char>, y: Seq<char>, part: Seq<char>|
        has_part(x, part) || has_part(y, part) implies #[trigger] has_part(x + y, part) by {
        if has_part(x, part) {
            let (before, after) = a_found_part_stands_in_the_text(x, part);
            assert(x + y =~= before + part + (after + y));
            a_part_is_found_wherever_it_stands(before, part, after + y);
        } else {
            let (before, after) = a_found_part_stands_in_the_text(y, part);
            assert(x + y =~= (x + before) + part + after);
            a_part_is_found_wherever_it_stands(x + before, part, after);
        }
    }
}

/// Letters that differ in case alone are alike, and no other two different characters are.
pub proof fn case_is_all_that_is_ignored(a: Seq<char>, b: Seq<char>)
    ensures
        same_ignoring_case(a, b) <==> a.len() == b.len() && forall|i: int|
            0 <= i < a.len() ==> {
                ||| #[trigger] a[i] == b[i]
                ||| 'A' <= a[i] <= 'Z' && b[i] as u32 == a[i] as u32 + 32
                ||| 'A' <= b[i] <= 'Z' && a[i] as u32 == b[i] as u32 + 32
            },
{
    if same_ignoring_case(a, b) {
        assert forall|i: int| 0 <= i < a.len() implies {
            ||| #[trigger] a[i] == b[i]
            ||| 'A' <= a[i] <= 'Z' && b[i] as u32 == a[i] as u32 + 32
            ||| 'A' <= b[i] <= 'Z' && a[i] as u32 == b[i] as u32 + 32
        } by {
            assert(ascii_lower(a[i]) == ascii_lower(b[i]));
        }
    }
}

} // verus!
