//! File paths as text, by the rules of a platform.
//!
//! Components are separated by `/`, and on Windows by `\` too. Repeated separators and `.`
//! components count for nothing, except for a `.` that opens a path. On Windows a prefix may
//! stand before the components: a drive such as `C:`, a share such as `\\server\share`, a device
//! such as `\\.\COM42`, or one of these after `\\?\`. What starts with `\\?\` is taken verbatim:
//! only `\` separates its components, and `.` is one of them.

use crate::text;
use crate::text::{chars_of, eq_ignoring_case, lower, text_eq};
use vstd::prelude::*;
use vstd::string::*;

verus! {

/// The platform whose rules paths follow.
#[derive(Debug, Clone, Copy, PartialEq, Eq, Structural)]
pub enum PathStyle {
    Unix,
    Windows,
}

/// The rules by which a path falls into components.
#[derive(Debug, Clone, Copy, PartialEq, Eq, Structural)]
pub enum PathRules {
    Unix,
    Windows,
    /// A Windows path that is taken verbatim.
    Verbatim,
}

/// Whether `c` separates components.
pub open spec fn is_separator(rules: PathRules, c: char) -> bool {
    match rules {
        PathRules::Unix => c == '/',
        PathRules::Windows => c == '/' || c == '\\',
        PathRules::Verbatim => c == '\\',
    }
}

/// The rules of a platform for a path that is not taken verbatim.
pub open spec fn plain_rules(style: PathStyle) -> PathRules {
    match style {
        PathStyle::Unix => PathRules::Unix,
        PathStyle::Windows => PathRules::Windows,
    }
}

/// Whether `p` is taken verbatim: it starts with `\\?\`, written with backslashes.
pub open spec fn is_verbatim(style: PathStyle, p: Seq<char>) -> bool {
    style == PathStyle::Windows && p.len() >= 4 && p[0] == '\\' && p[1] == '\\' && p[2] == '?'
        && p[3] == '\\'
}

/// The rules by which `p` falls into components.
pub open spec fn rules_of(style: PathStyle, p: Seq<char>) -> PathRules {
    if is_verbatim(style, p) {
        PathRules::Verbatim
    } else {
        plain_rules(style)
    }
}

/// The position of the first separator at or after `from`; the end where there is none.
pub open spec fn next_separator(rules: PathRules, p: Seq<char>, from: int) -> int
    decreases p.len() - from,
{
    if from < 0 || from >= p.len() || is_separator(rules, p[from]) {
        from
    } else {
        next_separator(rules, p, from + 1)
    }
}

/// Whether `c` is an ASCII letter.
pub open spec fn is_letter(c: char) -> bool {
    'a' <= c <= 'z' || 'A' <= c <= 'Z'
}

/// Whether `p` starts as a share does: with two separators.
pub open spec fn starts_share(style: PathStyle, p: Seq<char>) -> bool {
    style == PathStyle::Windows && p.len() >= 2 && is_separator(PathRules::Windows, p[0])
        && is_separator(PathRules::Windows, p[1])
}

/// Whether `p` starts with a drive.
pub open spec fn starts_drive(style: PathStyle, p: Seq<char>) -> bool {
    style == PathStyle::Windows && p.len() >= 2 && is_letter(p[0]) && p[1] == ':'
}

/// Whether `p` names a device: `\\.\`, and its name.
pub open spec fn is_device(style: PathStyle, p: Seq<char>) -> bool {
    starts_share(style, p) && p.len() >= 4 && p[2] == '.' && is_separator(PathRules::Windows, p[3])
}

/// Whether `p` is a verbatim path on a share: `\\?\UNC\`, a server and a name.
pub open spec fn is_verbatim_share(style: PathStyle, p: Seq<char>) -> bool {
    is_verbatim(style, p) && p.len() >= 8 && p[4] == 'U' && p[5] == 'N' && p[6] == 'C'
        && is_separator(PathRules::Windows, p[7])
}

/// Whether `p` is a verbatim path on a drive: exactly a letter and `:` follow `\\?\`.
pub open spec fn is_verbatim_drive(style: PathStyle, p: Seq<char>) -> bool {
    is_verbatim(style, p) && p.len() >= 6 && is_letter(p[4]) && p[5] == ':' && (p.len() == 6
        || is_separator(PathRules::Windows, p[6]))
}

/// Where a server that starts at `from` and the name of the share behind it end; only the
/// server where no name follows.
pub open spec fn share_end(rules: PathRules, p: Seq<char>, from: int) -> int {
    let server = next_separator(rules, p, from);
    let name = next_separator(rules, p, server + 1);
    if server < p.len() && server + 1 < name {
        name
    } else {
        server
    }
}

/// How many characters of `p` the prefix before the components takes. A share that is not
/// verbatim needs a server and a name.
pub open spec fn prefix_len(style: PathStyle, p: Seq<char>) -> int {
    if is_verbatim_share(style, p) {
        share_end(PathRules::Verbatim, p, 8)
    } else if is_verbatim_drive(style, p) {
        6
    } else if is_verbatim(style, p) {
        next_separator(PathRules::Verbatim, p, 4)
    } else if is_device(style, p) {
        next_separator(PathRules::Windows, p, 4)
    } else if starts_share(style, p) {
        let server = next_separator(PathRules::Windows, p, 2);
        let end = share_end(PathRules::Windows, p, 2);
        if 2 < server < end {
            end
        } else {
            0
        }
    } else if starts_drive(style, p) {
        2
    } else {
        0
    }
}

/// A character of the prefix of `p` for comparison: drives are compared without regard to case,
/// and separators are all alike where the path is not verbatim.
pub open spec fn prefix_char(style: PathStyle, p: Seq<char>, i: int) -> char {
    if is_verbatim(style, p) {
        if i == 4 && is_verbatim_drive(style, p) {
            text::ascii_lower(p[i])
        } else if i == 7 && is_verbatim_share(style, p) {
            '\\'
        } else {
            p[i]
        }
    } else if is_separator(PathRules::Windows, p[i]) {
        '/'
    } else if starts_drive(style, p) {
        text::ascii_lower(p[i])
    } else {
        p[i]
    }
}

/// The prefix of `p` for comparison.
pub open spec fn prefix_form(style: PathStyle, p: Seq<char>) -> Seq<char> {
    Seq::new(prefix_len(style, p) as nat, |i: int| prefix_char(style, p, i))
}

/// Whether a separator stands right behind the prefix of `p`.
pub open spec fn has_root_separator(style: PathStyle, p: Seq<char>) -> bool {
    prefix_len(style, p) < p.len() && is_separator(plain_rules(style), p[prefix_len(style, p)])
}

/// Whether `p` has a root: a separator behind its prefix, or a share or device that is not
/// verbatim.
pub open spec fn has_root(style: PathStyle, p: Seq<char>) -> bool {
    has_root_separator(style, p) || (prefix_len(style, p) > 2 && !is_verbatim(style, p))
}

/// Where the components of `p` start: behind its prefix and the separator of its root.
pub open spec fn body_start(style: PathStyle, p: Seq<char>) -> int {
    prefix_len(style, p) + if has_root_separator(style, p) {
        1int
    } else {
        0
    }
}

/// The position right after the last separator before `end`, and at least `base`.
pub open spec fn segment_start(rules: PathRules, p: Seq<char>, base: int, end: int) -> int
    decreases end - base,
{
    if end <= base {
        base
    } else if is_separator(rules, p[end - 1]) {
        end
    } else {
        segment_start(rules, p, base, end - 1)
    }
}

/// Whether the component from `start` to `end` counts for nothing: a `.` that opens no path and
/// is not taken verbatim.
pub open spec fn is_idle_dot(rules: PathRules, p: Seq<char>, start: int, end: int) -> bool {
    rules != PathRules::Verbatim && 0 < start && start == end - 1 && p[start] == '.'
}

/// Where the last component of `p` between `base` and `end` starts and ends.
pub open spec fn last_component(rules: PathRules, p: Seq<char>, base: int, end: int) -> Option<
    (int, int),
>
    decreases end - base,
{
    let start = segment_start(rules, p, base, end);
    if end <= base {
        None
    } else if start >= end {
        last_component(rules, p, base, end - 1)
    } else if is_idle_dot(rules, p, start, end) {
        last_component(rules, p, base, end - 1)
    } else {
        Some((start, end))
    }
}

/// A component's bounds lie within the text that it was taken from.
pub proof fn lemma_component_bounds(rules: PathRules, p: Seq<char>, base: int, end: int)
    requires
        0 <= base <= end <= p.len(),
    ensures
        base <= segment_start(rules, p, base, end) <= end,
        last_component(rules, p, base, end) matches Some((start, stop)) ==> base <= start < stop
            <= end && segment_start(rules, p, base, stop) == start,
    decreases end - base,
{
    if end > base {
        lemma_component_bounds(rules, p, base, end - 1);
    }
}

/// The components of `p` between `base` and `end`, in order.
pub open spec fn components(rules: PathRules, p: Seq<char>, base: int, end: int) -> Seq<Seq<char>>
    decreases end - base,
{
    match last_component(rules, p, base, end) {
        Some((start, stop)) if base <= start < end => components(rules, p, base, start).push(
            p.subrange(start, stop),
        ),
        _ => Seq::empty(),
    }
}

/// The components of `p`.
pub open spec fn all_components(style: PathStyle, p: Seq<char>) -> Seq<Seq<char>> {
    components(rules_of(style, p), p, body_start(style, p), p.len() as int)
}

/// Two paths are the same when they have the same prefix or both none, both or neither have a
/// root, and their components agree.
pub open spec fn same_path(style: PathStyle, a: Seq<char>, b: Seq<char>) -> bool {
    &&& prefix_form(style, a) == prefix_form(style, b)
    &&& has_root(style, a) == has_root(style, b)
    &&& all_components(style, a) == all_components(style, b)
}

/// The last component of `p` before `end`.
pub open spec fn component_before(style: PathStyle, p: Seq<char>, end: int) -> Option<(int, int)> {
    last_component(rules_of(style, p), p, body_start(style, p), end)
}

/// Where the file name of `p` starts and ends: the last component, unless it is `.` or `..`.
pub open spec fn name_span(style: PathStyle, p: Seq<char>) -> Option<(int, int)> {
    match component_before(style, p, p.len() as int) {
        Some((start, stop)) => if (stop == start + 1 && p[start] == '.') || (stop == start + 2
            && p[start] == '.' && p[start + 1] == '.') {
            None
        } else {
            Some((start, stop))
        },
        None => None,
    }
}

/// The file name of `p`.
pub open spec fn file_name(style: PathStyle, p: Seq<char>) -> Option<Seq<char>> {
    match name_span(style, p) {
        Some((start, stop)) => Some(p.subrange(start, stop)),
        None => None,
    }
}

/// The position of the last `.` at or after `start` and before `end`; `start` where there
/// is none.
pub open spec fn last_dot(p: Seq<char>, start: int, end: int) -> int
    decreases end - start,
{
    if end <= start {
        start
    } else if p[end - 1] == '.' {
        end - 1
    } else {
        last_dot(p, start, end - 1)
    }
}

/// The part of the file name after its last `.`, unless that `.` opens the name.
pub open spec fn extension(style: PathStyle, p: Seq<char>) -> Option<Seq<char>> {
    match name_span(style, p) {
        Some((start, stop)) => {
            let dot = last_dot(p, start, stop);
            if dot > start {
                Some(p.subrange(dot + 1, stop))
            } else {
                None
            }
        },
        None => None,
    }
}

/// `p` with the extension of its file name replaced; nothing follows the name any more. A
/// path without a file name stays as it is, and an empty extension comes without a `.`.
pub open spec fn with_extension(style: PathStyle, p: Seq<char>, ext: Seq<char>) -> Seq<char> {
    match name_span(style, p) {
        Some((start, stop)) => {
            let dot = last_dot(p, start, stop);
            let stem = p.take(
                if dot > start {
                    dot
                } else {
                    stop
                },
            );
            if ext.len() == 0 {
                stem
            } else {
                stem + seq!['.'] + ext
            }
        },
        None => p,
    }
}

/// Where `p` goes on behind its prefix, its root, and a `.` that a drive without a root is
/// followed by.
pub open spec fn opening_end(style: PathStyle, p: Seq<char>) -> int {
    let body = body_start(style, p);
    if 0 < body && !has_root(style, p) && !is_verbatim(style, p) && body < p.len() && p[body]
        == '.' && (body + 1 == p.len() || is_separator(plain_rules(style), p[body + 1])) {
        body + 1
    } else {
        body
    }
}

/// `p` without its last component.
pub open spec fn parent(style: PathStyle, p: Seq<char>) -> Option<Seq<char>> {
    match component_before(style, p, p.len() as int) {
        Some((start, _)) => Some(
            match component_before(style, p, start) {
                Some((_, stop)) => p.take(stop),
                None => p.take(opening_end(style, p)),
            },
        ),
        None => None,
    }
}

/// Whether the extension of `p` is `ext`, up to ASCII case.
pub open spec fn has_extension(style: PathStyle, p: Seq<char>, ext: Seq<char>) -> bool {
    extension(style, p) matches Some(e) && text::same_ignoring_case(e, ext)
}

/// A last `.` lies within the bounds that it was looked for in.
proof fn lemma_last_dot_bounds(p: Seq<char>, start: int, end: int)
    requires
        0 <= start <= end <= p.len(),
    ensures
        start <= last_dot(p, start, end) <= end,
        last_dot(p, start, end) > start ==> last_dot(p, start, end) < end && p[last_dot(
            p,
            start,
            end,
        )] == '.',
    decreases end - start,
{
    if start < end {
        lemma_last_dot_bounds(p, start, end - 1);
    }
}

proof fn lemma_next_separator(rules: PathRules, p: Seq<char>, from: int)
    requires
        0 <= from <= p.len(),
    ensures
        ({
            let at = next_separator(rules, p, from);
            &&& from <= at <= p.len()
            &&& at < p.len() ==> is_separator(rules, p[at])
            &&& forall|i: int| from <= i < at ==> !is_separator(rules, p[i])
        }),
    decreases p.len() - from,
{
    if from < p.len() && !is_separator(rules, p[from]) {
        lemma_next_separator(rules, p, from + 1);
    }
}

/// A separator that nothing but other characters comes before is the next one.
proof fn lemma_is_next_separator(rules: PathRules, p: Seq<char>, from: int, at: int)
    requires
        0 <= from <= at <= p.len(),
        at < p.len() ==> is_separator(rules, p[at]),
        forall|i: int| from <= i < at ==> !is_separator(rules, p[i]),
    ensures
        next_separator(rules, p, from) == at,
    decreases at - from,
{
    if from < at {
        lemma_is_next_separator(rules, p, from + 1, at);
    }
}

/// A share lies within the path, and a separator or nothing follows it.
proof fn lemma_share_end(rules: PathRules, p: Seq<char>, from: int)
    requires
        0 <= from <= p.len(),
    ensures
        ({
            let server = next_separator(rules, p, from);
            let end = share_end(rules, p, from);
            &&& from <= server <= end <= p.len()
            &&& server < p.len() ==> is_separator(rules, p[server])
            &&& end < p.len() ==> is_separator(rules, p[end])
            &&& end == server && server + 1 < p.len() ==> is_separator(rules, p[server + 1])
            &&& forall|i: int| from <= i < server ==> !is_separator(rules, p[i])
            &&& forall|i: int| server < i < end ==> !is_separator(rules, p[i])
        }),
{
    lemma_next_separator(rules, p, from);
    let server = next_separator(rules, p, from);
    if server < p.len() {
        lemma_next_separator(rules, p, server + 1);
    }
}

/// A prefix lies within the path, and a separator or nothing follows one that is no drive.
pub proof fn lemma_prefix_bounds(style: PathStyle, p: Seq<char>)
    ensures
        0 <= prefix_len(style, p) <= body_start(style, p) <= p.len(),
        prefix_len(style, p) > 2 && prefix_len(style, p) < p.len() ==> has_root_separator(style, p),
        is_verbatim(style, p) ==> prefix_len(style, p) >= 4,
{
    if is_verbatim_share(style, p) {
        lemma_share_end(PathRules::Verbatim, p, 8);
    } else if is_verbatim(style, p) {
        lemma_next_separator(PathRules::Verbatim, p, 4);
    } else if is_device(style, p) {
        lemma_next_separator(PathRules::Windows, p, 4);
    } else if starts_share(style, p) {
        lemma_share_end(PathRules::Windows, p, 2);
    }
}

fn separates(rules: PathRules, c: char) -> (r: bool)
    ensures
        r == is_separator(rules, c),
{
    match rules {
        PathRules::Unix => c == '/',
        PathRules::Windows => c == '/' || c == '\\',
        PathRules::Verbatim => c == '\\',
    }
}

fn plain(style: PathStyle) -> (r: PathRules)
    ensures
        r == plain_rules(style),
{
    match style {
        PathStyle::Unix => PathRules::Unix,
        PathStyle::Windows => PathRules::Windows,
    }
}

fn letter(c: char) -> (r: bool)
    ensures
        r == is_letter(c),
{
    ('a' <= c && c <= 'z') || ('A' <= c && c <= 'Z')
}

fn verbatim(style: PathStyle, all: &Vec<char>) -> (r: bool)
    ensures
        r == is_verbatim(style, all@),
{
    style == PathStyle::Windows && all.len() >= 4 && all[0] == '\\' && all[1] == '\\' && all[2]
        == '?' && all[3] == '\\'
}

fn verbatim_share(style: PathStyle, all: &Vec<char>) -> (r: bool)
    ensures
        r == is_verbatim_share(style, all@),
{
    verbatim(style, all) && all.len() >= 8 && all[4] == 'U' && all[5] == 'N' && all[6] == 'C'
        && separates(PathRules::Windows, all[7])
}

fn verbatim_drive(style: PathStyle, all: &Vec<char>) -> (r: bool)
    ensures
        r == is_verbatim_drive(style, all@),
{
    verbatim(style, all) && all.len() >= 6 && letter(all[4]) && all[5] == ':' && (all.len() == 6
        || separates(PathRules::Windows, all[6]))
}

fn drive(style: PathStyle, all: &Vec<char>) -> (r: bool)
    ensures
        r == starts_drive(style, all@),
{
    style == PathStyle::Windows && all.len() >= 2 && letter(all[0]) && all[1] == ':'
}

fn rules_for(style: PathStyle, all: &Vec<char>) -> (r: PathRules)
    ensures
        r == rules_of(style, all@),
{
    if verbatim(style, all) {
        PathRules::Verbatim
    } else {
        plain(style)
    }
}

fn find_next_separator(rules: PathRules, all: &Vec<char>, from: usize) -> (r: usize)
    requires
        from <= all.len(),
    ensures
        r == next_separator(rules, all@, from as int),
        from <= r <= all.len(),
{
    let mut at: usize = from;
    while at < all.len() && !separates(rules, all[at])
        invariant
            from <= at <= all.len(),
            next_separator(rules, all@, from as int) == next_separator(rules, all@, at as int),
        decreases all.len() - at,
    {
        at = at + 1;
    }
    at
}

fn find_share_end(rules: PathRules, all: &Vec<char>, from: usize) -> (r: usize)
    requires
        from <= all.len(),
    ensures
        r == share_end(rules, all@, from as int),
        from <= r <= all.len(),
{
    let server = find_next_separator(rules, all, from);
    if server == all.len() {
        return server;
    }
    let name = find_next_separator(rules, all, server + 1);
    if server + 1 < name {
        name
    } else {
        server
    }
}

/// How many characters the prefix before the components takes.
fn find_prefix(style: PathStyle, all: &Vec<char>) -> (r: usize)
    ensures
        r == prefix_len(style, all@),
        r <= all.len(),
{
    if style == PathStyle::Unix || all.len() < 2 {
        return 0;
    }
    if verbatim_share(style, all) {
        return find_share_end(PathRules::Verbatim, all, 8);
    }
    if verbatim_drive(style, all) {
        return 6;
    }
    if verbatim(style, all) {
        return find_next_separator(PathRules::Verbatim, all, 4);
    }
    if separates(PathRules::Windows, all[0]) && separates(PathRules::Windows, all[1]) {
        if all.len() >= 4 && all[2] == '.' && separates(PathRules::Windows, all[3]) {
            return find_next_separator(PathRules::Windows, all, 4);
        }
        let server = find_next_separator(PathRules::Windows, all, 2);
        let end = find_share_end(PathRules::Windows, all, 2);
        if 2 < server && server < end {
            return end;
        }
        return 0;
    }
    if drive(style, all) {
        return 2;
    }
    0
}

/// Where the components start.
fn find_body(style: PathStyle, all: &Vec<char>) -> (r: usize)
    ensures
        r == body_start(style, all@),
        r <= all.len(),
{
    let prefix = find_prefix(style, all);
    if prefix < all.len() && separates(plain(style), all[prefix]) {
        prefix + 1
    } else {
        prefix
    }
}

/// Whether the path has a root.
fn rooted(style: PathStyle, all: &Vec<char>) -> (r: bool)
    ensures
        r == has_root(style, all@),
{
    let prefix = find_prefix(style, all);
    (prefix < all.len() && separates(plain(style), all[prefix])) || (prefix > 2 && !verbatim(
        style,
        all,
    ))
}

/// The position right after the last separator before `end`, and at least `base`.
fn find_segment_start(rules: PathRules, all: &Vec<char>, base: usize, end: usize) -> (r: usize)
    requires
        base <= end <= all.len(),
    ensures
        r == segment_start(rules, all@, base as int, end as int),
        base <= r <= end,
{
    let mut at: usize = end;
    while at > base && !separates(rules, all[at - 1])
        invariant
            base <= at <= end <= all.len(),
            segment_start(rules, all@, base as int, end as int) == segment_start(
                rules,
                all@,
                base as int,
                at as int,
            ),
        decreases at,
    {
        at = at - 1;
    }
    at
}

/// Where the last component between `base` and `end` starts and ends.
fn find_last_component(rules: PathRules, all: &Vec<char>, base: usize, end: usize) -> (r: Option<
    (usize, usize),
>)
    requires
        base <= end <= all.len(),
    ensures
        match last_component(rules, all@, base as int, end as int) {
            Some((start, stop)) => r matches Some(found) && found.0 == start && found.1 == stop
                && base <= start < stop <= end,
            None => r is None,
        },
{
    let mut at: usize = end;
    while at > base
        invariant
            base <= at <= end <= all.len(),
            last_component(rules, all@, base as int, end as int) == last_component(
                rules,
                all@,
                base as int,
                at as int,
            ),
        decreases at,
    {
        let start = find_segment_start(rules, all, base, at);
        let idle = rules != PathRules::Verbatim && 0 < start && start == at - 1 && all[start] == '.';
        if start < at && !idle {
            return Some((start, at));
        }
        at = at - 1;
    }
    None
}

/// Where the file name starts and ends.
fn find_name(style: PathStyle, all: &Vec<char>) -> (r: Option<(usize, usize)>)
    ensures
        match name_span(style, all@) {
            Some((start, stop)) => r matches Some(found) && found.0 == start && found.1 == stop
                && start < stop <= all.len(),
            None => r is None,
        },
{
    match find_last_component(rules_for(style, all), all, find_body(style, all), all.len()) {
        Some((start, stop)) => {
            if (stop - start == 1 && all[start] == '.') || (stop - start == 2 && all[start] == '.'
                && all[start + 1] == '.') {
                None
            } else {
                Some((start, stop))
            }
        },
        None => None,
    }
}

/// The position of the last `.` between `start` and `end`; `start` where there is none.
fn find_last_dot(all: &Vec<char>, start: usize, end: usize) -> (r: usize)
    requires
        start <= end <= all.len(),
    ensures
        r == last_dot(all@, start as int, end as int),
        start <= r <= end,
        r > start ==> r < end,
{
    let mut at: usize = end;
    while at > start
        invariant
            start <= at <= end <= all.len(),
            last_dot(all@, start as int, end as int) == last_dot(all@, start as int, at as int),
        decreases at,
    {
        if all[at - 1] == '.' {
            return at - 1;
        }
        at = at - 1;
    }
    start
}

/// The file name of `path`.
pub fn path_file_name(style: PathStyle, path: &str) -> (r: Option<&str>)
    ensures
        match file_name(style, path@) {
            Some(name) => r is Some && r->0@ == name,
            None => r is None,
        },
{
    let all = chars_of(path);
    match find_name(style, &all) {
        Some((start, stop)) => Some(path.substring_char(start, stop)),
        None => None,
    }
}

/// The extension of `path`.
pub fn path_extension(style: PathStyle, path: &str) -> (r: Option<&str>)
    ensures
        match extension(style, path@) {
            Some(ext) => r is Some && r->0@ == ext,
            None => r is None,
        },
{
    let all = chars_of(path);
    match find_name(style, &all) {
        Some((start, stop)) => {
            let dot = find_last_dot(&all, start, stop);
            if dot > start {
                Some(path.substring_char(dot + 1, stop))
            } else {
                None
            }
        },
        None => None,
    }
}

/// Whether the extension of `path` is `ext`, up to ASCII case.
pub fn path_has_extension(style: PathStyle, path: &str, ext: &str) -> (r: bool)
    ensures
        r == has_extension(style, path@, ext@),
{
    match path_extension(style, path) {
        Some(found) => eq_ignoring_case(found, ext),
        None => false,
    }
}

/// `path` with the extension of its file name replaced.
pub fn path_with_extension(style: PathStyle, path: &str, ext: &str) -> (r: String)
    ensures
        r@ == with_extension(style, path@, ext@),
{
    let all = chars_of(path);
    match find_name(style, &all) {
        Some((start, stop)) => {
            let dot = find_last_dot(&all, start, stop);
            let stem = path.substring_char(
                0,
                if dot > start {
                    dot
                } else {
                    stop
                },
            );
            let mut r = stem.to_owned();
            if !ext.is_empty() {
                proof {
                    reveal_strlit(".");
                }
                r.append(".");
                r.append(ext);
                assert("."@ =~= seq!['.']);
            }
            r
        },
        None => path.to_owned(),
    }
}

/// Where the path goes on behind its prefix, its root, and a `.` that a drive without a root is
/// followed by.
fn find_opening_end(style: PathStyle, all: &Vec<char>) -> (r: usize)
    ensures
        r == opening_end(style, all@),
        r <= all.len(),
{
    let body = find_body(style, all);
    if 0 < body && !rooted(style, all) && !verbatim(style, all) && body < all.len() && all[body]
        == '.' && (body + 1 == all.len() || separates(plain(style), all[body + 1])) {
        body + 1
    } else {
        body
    }
}

/// `path` without its last component.
pub fn path_parent(style: PathStyle, path: &str) -> (r: Option<&str>)
    ensures
        match parent(style, path@) {
            Some(up) => r is Some && r->0@ == up,
            None => r is None,
        },
{
    let all = chars_of(path);
    let rules = rules_for(style, &all);
    let body = find_body(style, &all);
    match find_last_component(rules, &all, body, all.len()) {
        Some((start, _)) => {
            let stop: usize = match find_last_component(rules, &all, body, start) {
                Some((_, stop)) => stop,
                None => find_opening_end(style, &all),
            };
            Some(path.substring_char(0, stop))
        },
        None => None,
    }
}

/// Whether the characters of `a` from `from_a` to `to_a` are those of `b` from `from_b` to
/// `to_b`.
fn same_run(
    a: &Vec<char>,
    from_a: usize,
    to_a: usize,
    b: &Vec<char>,
    from_b: usize,
    to_b: usize,
) -> (r: bool)
    requires
        from_a <= to_a <= a.len(),
        from_b <= to_b <= b.len(),
    ensures
        r == (a@.subrange(from_a as int, to_a as int) == b@.subrange(from_b as int, to_b as int)),
{
    let ghost left = a@.subrange(from_a as int, to_a as int);
    let ghost right = b@.subrange(from_b as int, to_b as int);
    if to_a - from_a != to_b - from_b {
        assert(left.len() != right.len());
        return false;
    }
    let mut i: usize = 0;
    while i < to_a - from_a
        invariant
            from_a <= to_a <= a.len(),
            from_b <= to_b <= b.len(),
            to_a - from_a == to_b - from_b,
            i <= to_a - from_a,
            left == a@.subrange(from_a as int, to_a as int),
            right == b@.subrange(from_b as int, to_b as int),
            forall|j: int| 0 <= j < i ==> left[j] == right[j],
        decreases to_a - from_a - i,
    {
        if a[from_a + i] != b[from_b + i] {
            assert(left[i as int] != right[i as int]);
            return false;
        }
        i = i + 1;
    }
    assert(left =~= right);
    true
}

/// A character of the prefix, for comparison.
fn find_prefix_char(style: PathStyle, all: &Vec<char>, i: usize) -> (r: char)
    requires
        i < all.len(),
    ensures
        r == prefix_char(style, all@, i as int),
{
    if verbatim(style, all) {
        if i == 4 && verbatim_drive(style, all) {
            lower(all[i])
        } else if i == 7 && verbatim_share(style, all) {
            '\\'
        } else {
            all[i]
        }
    } else if separates(PathRules::Windows, all[i]) {
        '/'
    } else if drive(style, all) {
        lower(all[i])
    } else {
        all[i]
    }
}

/// Whether two paths have the same prefix, or both none.
fn same_prefix(style: PathStyle, a: &Vec<char>, b: &Vec<char>) -> (r: bool)
    ensures
        r == (prefix_form(style, a@) == prefix_form(style, b@)),
{
    let len_a = find_prefix(style, a);
    let len_b = find_prefix(style, b);
    let ghost left = prefix_form(style, a@);
    let ghost right = prefix_form(style, b@);
    if len_a != len_b {
        assert(left.len() != right.len());
        return false;
    }
    let mut i: usize = 0;
    while i < len_a
        invariant
            i <= len_a,
            len_a == len_b,
            len_a <= a.len(),
            len_b <= b.len(),
            len_a == prefix_len(style, a@),
            len_b == prefix_len(style, b@),
            left == prefix_form(style, a@),
            right == prefix_form(style, b@),
            forall|j: int| 0 <= j < i ==> left[j] == right[j],
        decreases len_a - i,
    {
        let c = find_prefix_char(style, a, i);
        let d = find_prefix_char(style, b, i);
        if c != d {
            assert(left[i as int] == c && right[i as int] == d);
            return false;
        }
        i = i + 1;
    }
    assert(left =~= right);
    true
}

/// Whether two paths are the same, component by component.
pub fn paths_equal(style: PathStyle, left: &str, right: &str) -> (r: bool)
    ensures
        r == same_path(style, left@, right@),
{
    let a = chars_of(left);
    let b = chars_of(right);
    if !same_prefix(style, &a, &b) {
        return false;
    }
    if rooted(style, &a) != rooted(style, &b) {
        return false;
    }
    let rules_a = rules_for(style, &a);
    let rules_b = rules_for(style, &b);
    let base_a = find_body(style, &a);
    let base_b = find_body(style, &b);
    let mut end_a: usize = a.len();
    let mut end_b: usize = b.len();
    loop
        invariant
            base_a <= end_a <= a.len(),
            base_b <= end_b <= b.len(),
            same_path(style, left@, right@) == (components(
                rules_a,
                a@,
                base_a as int,
                end_a as int,
            ) == components(rules_b, b@, base_b as int, end_b as int)),
        decreases end_a,
    {
        let ghost rest_a = components(rules_a, a@, base_a as int, end_a as int);
        let ghost rest_b = components(rules_b, b@, base_b as int, end_b as int);
        match (
            find_last_component(rules_a, &a, base_a, end_a),
            find_last_component(rules_b, &b, base_b, end_b),
        ) {
            (None, None) => {
                return true;
            },
            (Some((start_a, stop_a)), Some((start_b, stop_b))) => {
                proof {
                    assert(rest_a.last() == a@.subrange(start_a as int, stop_a as int));
                    assert(rest_b.last() == b@.subrange(start_b as int, stop_b as int));
                    assert(rest_a.drop_last() =~= components(
                        rules_a,
                        a@,
                        base_a as int,
                        start_a as int,
                    ));
                    assert(rest_b.drop_last() =~= components(
                        rules_b,
                        b@,
                        base_b as int,
                        start_b as int,
                    ));
                    if rest_a.drop_last() == rest_b.drop_last() && rest_a.last() == rest_b.last() {
                        assert(rest_a =~= rest_b);
                    }
                }
                if !same_run(&a, start_a, stop_a, &b, start_b, stop_b) {
                    return false;
                }
                end_a = start_a;
                end_b = start_b;
            },
            _ => {
                assert(rest_a.len() != rest_b.len());
                return false;
            },
        }
    }
}

/// A segment starts right after a separator or at `base`, and holds none.
proof fn lemma_segment(rules: PathRules, p: Seq<char>, base: int, start: int, end: int)
    requires
        0 <= base <= start <= end <= p.len(),
        start == base || is_separator(rules, p[start - 1]),
        forall|i: int| start <= i < end ==> !is_separator(rules, p[i]),
    ensures
        segment_start(rules, p, base, end) == start,
    decreases end - base,
{
    if start < end {
        lemma_segment(rules, p, base, start, end - 1);
    }
}

/// What a segment start says of the characters around it.
proof fn lemma_segment_start(rules: PathRules, p: Seq<char>, base: int, end: int)
    requires
        0 <= base <= end <= p.len(),
    ensures
        ({
            let start = segment_start(rules, p, base, end);
            &&& base <= start <= end
            &&& start == base || is_separator(rules, p[start - 1])
            &&& forall|i: int| start <= i < end ==> !is_separator(rules, p[i])
        }),
    decreases end - base,
{
    if end > base {
        lemma_segment_start(rules, p, base, end - 1);
    }
}

/// The last `.` is where it stands, when no other follows.
proof fn lemma_last_dot(p: Seq<char>, start: int, dot: int, end: int)
    requires
        0 <= start <= dot < end <= p.len(),
        p[dot] == '.',
        forall|i: int| dot < i < end ==> p[i] != '.',
    ensures
        last_dot(p, start, end) == dot,
    decreases end,
{
    if dot < end - 1 {
        lemma_last_dot(p, start, dot, end - 1);
    }
}

/// What `p` and a path that differs from it behind a `.` in the last component have in common.
spec fn differs_in_name(style: PathStyle, p: Seq<char>, q: Seq<char>, start: int, end: int) -> bool {
    &&& body_start(style, p) <= start < end <= p.len()
    &&& end < q.len()
    &&& forall|i: int| 0 <= i < end ==> q[i] == p[i]
    &&& q[end] == '.'
    &&& start == body_start(style, p) || is_separator(rules_of(style, p), p[start - 1])
    &&& forall|i: int| start <= i < q.len() ==> !is_separator(rules_of(style, p), q[i])
}

proof fn lemma_verbatim_kept(style: PathStyle, p: Seq<char>, q: Seq<char>, start: int, end: int)
    requires
        differs_in_name(style, p, q, start, end),
    ensures
        is_verbatim(style, q) == is_verbatim(style, p),
{
    lemma_prefix_bounds(style, p);
    if is_verbatim(style, p) {
        assert(q[0] == p[0] && q[1] == p[1] && q[2] == p[2] && q[3] == p[3]);
    } else if is_verbatim(style, q) {
        if end == 1 {
            assert(q[1] == '.');
        } else if end == 2 {
            assert(q[2] == '.');
        } else if end == 3 {
            assert(q[3] == '.');
        } else {
            assert(q[0] == p[0] && q[1] == p[1] && q[2] == p[2] && q[3] == p[3]);
        }
    }
}

/// A share before the last component stays.
proof fn lemma_share_kept(
    rules: PathRules,
    p: Seq<char>,
    q: Seq<char>,
    from: int,
    start: int,
    end: int,
)
    requires
        0 <= from <= start < end <= p.len(),
        end < q.len(),
        forall|i: int| 0 <= i < end ==> q[i] == p[i],
        forall|i: int| start <= i < q.len() ==> !is_separator(rules, q[i]),
        start == from || is_separator(rules, p[start - 1]),
    ensures
        next_separator(rules, p, from) < start ==> {
            &&& next_separator(rules, q, from) == next_separator(rules, p, from)
            &&& share_end(rules, p, from) < start ==> share_end(rules, q, from) == share_end(
                rules,
                p,
                from,
            )
        },
        next_separator(rules, p, from) >= start ==> next_separator(rules, q, from) == q.len(),
{
    lemma_share_end(rules, p, from);
    let server = next_separator(rules, p, from);
    if server < start {
        lemma_is_next_separator(rules, q, from, server);
        lemma_next_separator(rules, p, server + 1);
        let name = next_separator(rules, p, server + 1);
        if name < start {
            lemma_is_next_separator(rules, q, server + 1, name);
        }
    } else {
        lemma_is_next_separator(rules, q, from, q.len() as int);
    }
}

proof fn lemma_verbatim_prefix_kept(
    style: PathStyle,
    p: Seq<char>,
    q: Seq<char>,
    start: int,
    end: int,
)
    requires
        differs_in_name(style, p, q, start, end),
        is_verbatim(style, p),
    ensures
        prefix_len(style, q) == prefix_len(style, p),
{
    lemma_prefix_bounds(style, p);
    lemma_verbatim_kept(style, p, q, start, end);
    let base = prefix_len(style, p);
    assert(base < start);
    if is_verbatim_share(style, p) {
        lemma_share_end(PathRules::Verbatim, p, 8);
        assert(q[4] == p[4] && q[5] == p[5] && q[6] == p[6] && q[7] == p[7]);
        lemma_share_kept(PathRules::Verbatim, p, q, 8, start, end);
    } else if is_verbatim_drive(style, p) {
        assert(q[4] == p[4] && q[5] == p[5] && q[6] == p[6]);
    } else {
        lemma_next_separator(PathRules::Verbatim, p, 4);
        lemma_is_next_separator(PathRules::Verbatim, q, 4, base);
        assert(forall|i: int| 0 <= i <= base ==> q[i] == p[i]);
        if is_verbatim_share(style, q) {
            if base >= 7 {
                assert(q[4] == p[4] && q[5] == p[5] && q[6] == p[6] && q[7] == p[7]);
            } else {
                assert(q[base] == '\\');
            }
        }
        if is_verbatim_drive(style, q) {
            if base >= 6 {
                assert(q[4] == p[4] && q[5] == p[5] && q[6] == p[6]);
            } else {
                assert(q[base] == '\\');
            }
        }
    }
}

proof fn lemma_plain_prefix_kept(
    style: PathStyle,
    p: Seq<char>,
    q: Seq<char>,
    start: int,
    end: int,
)
    requires
        differs_in_name(style, p, q, start, end),
        !is_verbatim(style, p),
    ensures
        prefix_len(style, q) == prefix_len(style, p),
{
    lemma_prefix_bounds(style, p);
    lemma_verbatim_kept(style, p, q, start, end);
    let base = prefix_len(style, p);
    if is_device(style, p) {
        lemma_next_separator(PathRules::Windows, p, 4);
        lemma_is_next_separator(PathRules::Windows, q, 4, base);
        assert(q[0] == p[0] && q[1] == p[1] && q[2] == p[2] && q[3] == p[3]);
    } else if starts_share(style, p) {
        lemma_share_end(PathRules::Windows, p, 2);
        assert(start >= 2) by {
            if start < 2 {
                assert(q[start] == p[start]);
            }
        }
        assert(q[0] == p[0] && q[1] == p[1]);
        assert(!is_device(style, q)) by {
            if end == 3 {
                assert(q[3] == '.');
            } else {
                assert(q[2] == p[2] && q[3] == p[3]);
            }
        }
        lemma_share_kept(PathRules::Windows, p, q, 2, start, end);
        let server = next_separator(PathRules::Windows, p, 2);
        if server < start {
            lemma_share_end(PathRules::Windows, q, 2);
            if share_end(PathRules::Windows, p, 2) >= start {
                assert(q[start] == p[start]);
            }
        }
    } else {
        assert(!starts_share(style, q)) by {
            if end == 1 {
                assert(q[1] == '.');
            } else {
                assert(q[0] == p[0] && q[1] == p[1]);
            }
        }
        assert(starts_drive(style, q) == starts_drive(style, p)) by {
            if end == 1 {
                assert(q[1] == '.');
            } else {
                assert(q[0] == p[0] && q[1] == p[1]);
            }
        }
    }
}

/// Changing the last component of a path behind a `.` keeps what stands before its components.
proof fn lemma_prefix_kept(style: PathStyle, p: Seq<char>, q: Seq<char>, start: int, end: int)
    requires
        differs_in_name(style, p, q, start, end),
    ensures
        rules_of(style, q) == rules_of(style, p),
        body_start(style, q) == body_start(style, p),
{
    lemma_prefix_bounds(style, p);
    lemma_verbatim_kept(style, p, q, start, end);
    if is_verbatim(style, p) {
        lemma_verbatim_prefix_kept(style, p, q, start, end);
    } else {
        lemma_plain_prefix_kept(style, p, q, start, end);
    }
    let base = prefix_len(style, p);
    assert(q[base] == p[base]);
}

/// A path whose file name was given an extension has that extension, and the same stem.
pub proof fn lemma_with_extension(style: PathStyle, p: Seq<char>, ext: Seq<char>)
    requires
        name_span(style, p) is Some,
        ext.len() > 0,
        forall|i: int|
            0 <= i < ext.len() ==> ext[i] != '.' && !is_separator(rules_of(style, p), ext[i]),
    ensures
        extension(style, with_extension(style, p, ext)) == Some(ext),
        forall|other: Seq<char>| #[trigger]
            with_extension(style, with_extension(style, p, ext), other) == with_extension(
                style,
                p,
                other,
            ),
{
    let rules = rules_of(style, p);
    let base = body_start(style, p);
    let (start, stop) = name_span(style, p)->0;
    lemma_prefix_bounds(style, p);
    lemma_component_bounds(rules, p, base, p.len() as int);
    lemma_segment_start(rules, p, base, stop);
    lemma_last_dot_bounds(p, start, stop);
    let dot = last_dot(p, start, stop);
    let end = if dot > start {
        dot
    } else {
        stop
    };
    let q = with_extension(style, p, ext);
    assert(q =~= p.take(end) + seq!['.'] + ext);
    lemma_extended(style, p, q, start, end, ext);
    assert forall|other: Seq<char>| #[trigger]
        with_extension(style, q, other) == with_extension(style, p, other) by {
        assert(q.take(end) =~= p.take(end));
    }
}

/// A path that was cut within its last component and continued by an extension.
proof fn lemma_extended(
    style: PathStyle,
    p: Seq<char>,
    q: Seq<char>,
    start: int,
    end: int,
    ext: Seq<char>,
)
    requires
        body_start(style, p) <= start < end <= p.len(),
        start == body_start(style, p) || is_separator(rules_of(style, p), p[start - 1]),
        forall|i: int| start <= i < end ==> !is_separator(rules_of(style, p), p[i]),
        ext.len() > 0,
        forall|i: int|
            0 <= i < ext.len() ==> ext[i] != '.' && !is_separator(rules_of(style, p), ext[i]),
        q == p.take(end) + seq!['.'] + ext,
    ensures
        name_span(style, q) == Some((start, q.len() as int)),
        last_dot(q, start, q.len() as int) == end,
        extension(style, q) == Some(ext),
{
    lemma_prefix_bounds(style, p);
    let rules = rules_of(style, p);
    let base = body_start(style, p);
    assert(q.len() == end + 1 + ext.len());
    assert(q[end] == '.');
    assert forall|i: int| end < i < q.len() implies q[i] != '.' && !is_separator(rules, q[i]) by {
        assert(q[i] == ext[i - end - 1]);
    }
    assert forall|i: int| start <= i < q.len() implies !is_separator(rules, q[i]) by {
        if i < end {
            assert(q[i] == p[i]);
        }
    }
    lemma_prefix_kept(style, p, q, start, end);
    assert(start > base ==> q[start - 1] == p[start - 1]);
    lemma_segment(rules, q, base, start, q.len() as int);
    lemma_last_dot(q, start, end, q.len() as int);
    assert(q.subrange(end + 1, q.len() as int) =~= ext);
}

/// Appending `.ext` to a path that does not end in a separator or right after its prefix gives
/// its file name that extension; dropping it again gives the path back.
pub proof fn lemma_append_extension(style: PathStyle, p: Seq<char>, ext: Seq<char>)
    requires
        p.len() > body_start(style, p),
        !is_separator(rules_of(style, p), p.last()),
        ext.len() > 0,
        forall|i: int|
            0 <= i < ext.len() ==> ext[i] != '.' && !is_separator(rules_of(style, p), ext[i]),
    ensures
        extension(style, p + seq!['.'] + ext) == Some(ext),
        with_extension(style, p + seq!['.'] + ext, Seq::empty()) == p,
{
    let q = p + seq!['.'] + ext;
    let rules = rules_of(style, p);
    let base = body_start(style, p);
    let end = p.len() as int;
    lemma_prefix_bounds(style, p);
    let start = segment_start(rules, p, base, end);
    lemma_segment_start(rules, p, base, end);
    assert(p.take(end) =~= p);
    lemma_extended(style, p, q, start, end, ext);
    assert(q.take(end) =~= p);
}

/// `p` with backslashes in place of slashes.
pub open spec fn with_backslashes(p: Seq<char>) -> Seq<char> {
    p.map_values(
        |c: char|
            if c == '/' {
                '\\'
            } else {
                c
            },
    )
}

proof fn lemma_backslashes_separator(p: Seq<char>, from: int)
    requires
        0 <= from,
    ensures
        next_separator(PathRules::Windows, with_backslashes(p), from) == next_separator(
            PathRules::Windows,
            p,
            from,
        ),
    decreases p.len() - from,
{
    if from < p.len() {
        lemma_backslashes_separator(p, from + 1);
    }
}

proof fn lemma_backslashes_component(p: Seq<char>, base: int, end: int)
    requires
        0 <= base <= end <= p.len(),
    ensures
        segment_start(PathRules::Windows, with_backslashes(p), base, end) == segment_start(
            PathRules::Windows,
            p,
            base,
            end,
        ),
        last_component(PathRules::Windows, with_backslashes(p), base, end) == last_component(
            PathRules::Windows,
            p,
            base,
            end,
        ),
    decreases end - base,
{
    if base < end {
        lemma_backslashes_component(p, base, end - 1);
        lemma_component_bounds(PathRules::Windows, p, base, end);
    }
}

proof fn lemma_backslashes_components(p: Seq<char>, base: int, end: int)
    requires
        0 <= base <= end <= p.len(),
    ensures
        components(PathRules::Windows, with_backslashes(p), base, end) == components(
            PathRules::Windows,
            p,
            base,
            end,
        ),
    decreases end - base,
{
    let q = with_backslashes(p);
    lemma_backslashes_component(p, base, end);
    lemma_component_bounds(PathRules::Windows, p, base, end);
    if let Some((start, stop)) = last_component(PathRules::Windows, p, base, end) {
        lemma_segment_start(PathRules::Windows, p, base, stop);
        assert(q.subrange(start, stop) =~= p.subrange(start, stop));
        lemma_backslashes_components(p, base, start);
    }
}

/// On Windows it makes no difference which separator a path is written with, unless it is
/// verbatim when written with backslashes.
pub proof fn separators_are_alike_on_windows(p: Seq<char>)
    requires
        !is_verbatim(PathStyle::Windows, with_backslashes(p)),
    ensures
        same_path(PathStyle::Windows, p, with_backslashes(p)),
{
    let style = PathStyle::Windows;
    let rules = PathRules::Windows;
    let q = with_backslashes(p);
    assert(!is_verbatim(style, p)) by {
        if is_verbatim(style, p) {
            assert(q[0] == '\\' && q[1] == '\\' && q[2] == '?' && q[3] == '\\');
        }
    }
    if is_device(style, p) {
        lemma_backslashes_separator(p, 4);
    } else if starts_share(style, p) {
        lemma_backslashes_separator(p, 2);
        lemma_next_separator(rules, p, 2);
        lemma_backslashes_separator(p, next_separator(rules, p, 2) + 1);
    }
    lemma_prefix_bounds(style, p);
    assert(prefix_form(style, p) =~= prefix_form(style, q));
    lemma_backslashes_components(p, body_start(style, p), p.len() as int);
}

/// Whether a component is a name, and not `.` or `..`.
pub open spec fn is_name(component: Seq<char>) -> bool {
    component != seq!['.'] && component != seq!['.', '.']
}

/// The components after `parts` were followed one by one: `.` stays where it is, and `..` takes
/// the name before it away.
pub open spec fn followed(list: Seq<Seq<char>>, parts: Seq<Seq<char>>) -> Seq<Seq<char>>
    decreases parts.len(),
{
    if parts.len() == 0 {
        list
    } else {
        let before = followed(list, parts.drop_last());
        if is_name(parts.last()) {
            before.push(parts.last())
        } else if parts.last() == seq!['.', '.'] && before.len() > 0 && is_name(before.last()) {
            before.drop_last()
        } else {
            before
        }
    }
}

/// Components behind a backslash each.
pub open spec fn backslashed(list: Seq<Seq<char>>) -> Seq<char>
    decreases list.len(),
{
    if list.len() == 0 {
        Seq::empty()
    } else {
        backslashed(list.drop_last()) + seq!['\\'] + list.last()
    }
}

/// `part` behind the verbatim path `p`, which is written out anew: its prefix, and its components
/// behind a backslash each.
pub open spec fn joined_verbatim(p: Seq<char>, part: Seq<char>) -> Seq<char> {
    let style = PathStyle::Windows;
    let own = if has_root(style, part) {
        Seq::empty()
    } else {
        all_components(style, p)
    };
    let list = followed(own, all_components(style, part));
    let rooted = has_root_separator(style, p) || has_root(style, part);
    p.take(prefix_len(style, p)) + if list.len() == 0 && rooted {
        seq!['\\']
    } else {
        backslashed(list)
    }
}

/// The separator of a platform.
pub open spec fn main_separator(style: PathStyle) -> char {
    match style {
        PathStyle::Unix => '/',
        PathStyle::Windows => '\\',
    }
}

/// Whether a separator goes between `p` and what is put behind it: not behind another one, nor
/// behind nothing or a bare drive.
pub open spec fn needs_separator(style: PathStyle, p: Seq<char>) -> bool {
    p.len() > 0 && !is_separator(plain_rules(style), p.last()) && !(starts_drive(style, p)
        && p.len() == 2)
}

/// `part` as seen from `p`: a `part` with a prefix or, on Unix, a root stands for itself, and
/// one with a root alone replaces all but the prefix of `p`.
pub open spec fn joined(style: PathStyle, p: Seq<char>, part: Seq<char>) -> Seq<char> {
    if prefix_len(style, part) > 0 {
        part
    } else if is_verbatim(style, p) && part.len() > 0 {
        joined_verbatim(p, part)
    } else if has_root(style, part) {
        p.take(prefix_len(style, p)) + part
    } else if needs_separator(style, p) {
        p + seq![main_separator(style)] + part
    } else {
        p + part
    }
}

/// The components between `base` and `end`.
fn list_components(rules: PathRules, path: &str, all: &Vec<char>, base: usize, end: usize) -> (r:
    Vec<String>)
    requires
        base <= end <= all.len(),
        all@ == path@,
    ensures
        r.deep_view() == components(rules, path@, base as int, end as int),
    decreases end,
{
    match find_last_component(rules, all, base, end) {
        Some((start, stop)) => {
            let mut r = list_components(rules, path, all, base, start);
            let ghost before = r.deep_view();
            let component = path.substring_char(start, stop).to_owned();
            r.push(component);
            assert(r.deep_view() =~= before.push(component@));
            r
        },
        None => {
            let r: Vec<String> = Vec::new();
            assert(r.deep_view() =~= Seq::empty());
            r
        },
    }
}

/// The components of `path`.
pub fn path_components(style: PathStyle, path: &str) -> (r: Vec<String>)
    ensures
        r.deep_view() == all_components(style, path@),
{
    let all = chars_of(path);
    list_components(rules_for(style, &all), path, &all, find_body(style, &all), all.len())
}

fn names(component: &str) -> (r: bool)
    ensures
        r == is_name(component@),
{
    proof {
        reveal_strlit(".");
        reveal_strlit("..");
        assert("."@ =~= seq!['.']);
        assert(".."@ =~= seq!['.', '.']);
    }
    !text_eq(component, ".") && !text_eq(component, "..")
}

/// Follows `parts` one by one from `list`.
fn follow(list: Vec<String>, parts: &Vec<String>) -> (r: Vec<String>)
    ensures
        r.deep_view() == followed(list.deep_view(), parts.deep_view()),
{
    let ghost own = list.deep_view();
    let ghost all = parts.deep_view();
    let mut r = list;
    let mut i: usize = 0;
    assert(all.take(0) =~= Seq::empty());
    while i < parts.len()
        invariant
            i <= parts.len(),
            all == parts.deep_view(),
            r.deep_view() == followed(own, all.take(i as int)),
        decreases parts.len() - i,
    {
        let ghost before = r.deep_view();
        assert(all.take(i + 1).drop_last() =~= all.take(i as int));
        proof {
            reveal_strlit("..");
            assert(".."@ =~= seq!['.', '.']);
        }
        if names(parts[i].as_str()) {
            let part = parts[i].clone();
            r.push(part);
            assert(r.deep_view() =~= before.push(all[i as int]));
        } else if text_eq(parts[i].as_str(), "..") && r.len() > 0 && names(
            r[r.len() - 1].as_str(),
        ) {
            let _ = r.pop();
            assert(r.deep_view() =~= before.drop_last());
        }
        i = i + 1;
    }
    assert(all.take(all.len() as int) =~= all);
    r
}

/// Puts the components of `list` behind `start`, behind a backslash each.
fn append_backslashed(start: String, list: &Vec<String>) -> (r: String)
    ensures
        r@ == start@ + backslashed(list.deep_view()),
{
    let ghost all = list.deep_view();
    let mut r = start;
    let mut i: usize = 0;
    assert(all.take(0) =~= Seq::empty());
    assert(start@ + Seq::<char>::empty() =~= start@);
    while i < list.len()
        invariant
            i <= list.len(),
            all == list.deep_view(),
            r@ == start@ + backslashed(all.take(i as int)),
        decreases list.len() - i,
    {
        let ghost before = backslashed(all.take(i as int));
        assert(all.take(i + 1).drop_last() =~= all.take(i as int));
        proof {
            reveal_strlit("\\");
            assert("\\"@ =~= seq!['\\']);
        }
        r.append("\\");
        r.append(list[i].as_str());
        assert(r@ =~= start@ + (before + seq!['\\'] + all[i as int]));
        i = i + 1;
    }
    assert(all.take(all.len() as int) =~= all);
    r
}

fn join_verbatim(path: &str, part: &str) -> (r: String)
    ensures
        r@ == joined_verbatim(path@, part@),
{
    let style = PathStyle::Windows;
    let all = chars_of(path);
    let other = chars_of(part);
    let own = if rooted(style, &other) {
        let none: Vec<String> = Vec::new();
        assert(none.deep_view() =~= Seq::empty());
        none
    } else {
        path_components(style, path)
    };
    let list = follow(own, &path_components(style, part));
    let prefix = find_prefix(style, &all);
    let start = path.substring_char(0, prefix).to_owned();
    let root = (prefix < all.len() && separates(PathRules::Windows, all[prefix])) || rooted(
        style,
        &other,
    );
    assert(list.deep_view().len() == list@.len());
    if list.len() == 0 && root {
        proof {
            reveal_strlit("\\");
            assert("\\"@ =~= seq!['\\']);
        }
        let mut r = start;
        r.append("\\");
        r
    } else {
        append_backslashed(start, &list)
    }
}

/// `part` as seen from `path`.
pub fn path_join(style: PathStyle, path: &str, part: &str) -> (r: String)
    ensures
        r@ == joined(style, path@, part@),
{
    let all = chars_of(path);
    let other = chars_of(part);
    if find_prefix(style, &other) > 0 {
        return part.to_owned();
    }
    if verbatim(style, &all) && other.len() > 0 {
        return join_verbatim(path, part);
    }
    if rooted(style, &other) {
        let mut r = path.substring_char(0, find_prefix(style, &all)).to_owned();
        r.append(part);
        return r;
    }
    let mut r = path.to_owned();
    let needed = all.len() > 0 && !separates(plain(style), all[all.len() - 1]) && !(drive(
        style,
        &all,
    ) && all.len() == 2);
    if needed {
        proof {
            reveal_strlit("/");
            reveal_strlit("\\");
            assert("/"@ =~= seq!['/']);
            assert("\\"@ =~= seq!['\\']);
        }
        match style {
            PathStyle::Unix => {
                r.append("/");
            },
            PathStyle::Windows => {
                r.append("\\");
            },
        }
    }
    r.append(part);
    r
}

/// What is put behind a path that is not verbatim and ends in a letter goes behind a separator.
pub proof fn lemma_joined_plain(style: PathStyle, p: Seq<char>, part: Seq<char>)
    requires
        !is_verbatim(style, p),
        p.len() > 2,
        is_letter(p.last()),
        part.len() > 0,
        prefix_len(style, part) == 0,
        !is_separator(plain_rules(style), part[0]),
    ensures
        joined(style, p, part) == p + seq![main_separator(style)] + part,
        !is_verbatim(style, joined(style, p, part)),
{
    let q = p + seq![main_separator(style)] + part;
    if is_verbatim(style, q) {
        assert(q[0] == '\\' && q[1] == '\\' && q[2] == '?' && q[3] == '\\');
        if p.len() >= 4 {
            assert(p[0] == q[0] && p[1] == q[1] && p[2] == q[2] && p[3] == q[3]);
        } else {
            assert(q[2] == p.last());
        }
    }
}

/// A file name starts with no separator.
pub proof fn lemma_name_start(style: PathStyle, p: Seq<char>)
    requires
        file_name(style, p) is Some,
    ensures
        file_name(style, p)->0.len() > 0,
        !is_separator(rules_of(style, p), file_name(style, p)->0[0]),
{
    let rules = rules_of(style, p);
    let base = body_start(style, p);
    let (start, stop) = name_span(style, p)->0;
    lemma_prefix_bounds(style, p);
    lemma_component_bounds(rules, p, base, p.len() as int);
    lemma_segment_start(rules, p, base, stop);
}

/// Whether `dir`, put before `name`, is all that stands before the file name: what comes before
/// the components of the path, and whole components behind it.
pub open spec fn leads_to_name(style: PathStyle, dir: Seq<char>, name: Seq<char>) -> bool {
    let p = dir + name;
    &&& body_start(style, p) <= dir.len()
    &&& dir.len() == body_start(style, p) || is_separator(rules_of(style, p), dir.last())
    &&& name.len() > 0
    &&& name != seq!['.'] && name != seq!['.', '.']
    &&& forall|i: int| 0 <= i < name.len() ==> !is_separator(rules_of(style, p), #[trigger] name[i])
}

/// A path ends in its file name.
pub proof fn a_path_ends_in_its_name(style: PathStyle, dir: Seq<char>, name: Seq<char>)
    requires
        leads_to_name(style, dir, name),
    ensures
        name_span(style, dir + name) == Some((dir.len() as int, (dir.len() + name.len()) as int)),
        file_name(style, dir + name) == Some(name),
{
    let p = dir + name;
    let rules = rules_of(style, p);
    let start = dir.len() as int;
    let end = p.len() as int;
    lemma_prefix_bounds(style, p);
    assert forall|i: int| start <= i < end implies !is_separator(rules, p[i]) by {
        assert(p[i] == name[i - start]);
    }
    assert(start > 0 ==> p[start - 1] == dir.last());
    lemma_segment(rules, p, body_start(style, p), start, end);
    assert(p[start] == name[0]);
    if name.len() == 1 && name[0] == '.' {
        assert(name =~= seq!['.']);
    }
    if name.len() == 2 && name[0] == '.' && name[1] == '.' {
        assert(name =~= seq!['.', '.']);
    }
    if name.len() == 2 {
        assert(p[start + 1] == name[1]);
    }
    assert(p.subrange(start, end) =~= name);
}

/// The extension of a path is what follows the last `.` of its file name, and a new extension
/// takes its place; an empty one takes the `.` away too.
pub proof fn an_extension_follows_the_last_dot(
    style: PathStyle,
    dir: Seq<char>,
    stem: Seq<char>,
    ext: Seq<char>,
    other: Seq<char>,
)
    requires
        leads_to_name(style, dir, stem + seq!['.'] + ext),
        stem.len() > 0,
        !ext.contains('.'),
    ensures
        ({
            let p = dir + (stem + seq!['.'] + ext);
            &&& extension(style, p) == Some(ext)
            &&& with_extension(style, p, other) == dir + stem + if other.len() > 0 {
                seq!['.'] + other
            } else {
                Seq::empty()
            }
        }),
{
    let name = stem + seq!['.'] + ext;
    let p = dir + name;
    let start = dir.len() as int;
    let dot = (dir.len() + stem.len()) as int;
    let end = p.len() as int;
    a_path_ends_in_its_name(style, dir, name);
    assert(p[dot] == '.');
    assert forall|i: int| dot < i < end implies p[i] != '.' by {
        assert(p[i] == ext[i - dot - 1]);
    }
    lemma_last_dot(p, start, dot, end);
    assert(p.subrange(dot + 1, end) =~= ext);
    assert(p.take(dot) =~= dir + stem);
    assert(dir + stem + Seq::<char>::empty() =~= dir + stem);
    assert(dir + stem + seq!['.'] + other =~= dir + stem + (seq!['.'] + other));
}

/// A file name without a `.`, or with one only at its start, has no extension, and a new one goes
/// behind it.
pub proof fn a_name_without_a_dot_has_no_extension(
    style: PathStyle,
    dir: Seq<char>,
    name: Seq<char>,
    other: Seq<char>,
)
    requires
        leads_to_name(style, dir, name),
        !name.drop_first().contains('.'),
    ensures
        extension(style, dir + name) is None,
        other.len() > 0 ==> with_extension(style, dir + name, other) == dir + name + seq!['.']
            + other,
{
    let p = dir + name;
    let start = dir.len() as int;
    let end = p.len() as int;
    a_path_ends_in_its_name(style, dir, name);
    lemma_last_dot_bounds(p, start, end);
    let dot = last_dot(p, start, end);
    if dot > start {
        lemma_last_dot_is_dot(p, start, end);
        assert(name.drop_first()[dot - start - 1] == p[dot]);
    }
    assert(p.take(end) =~= p);
}

proof fn lemma_last_dot_is_dot(p: Seq<char>, start: int, end: int)
    requires
        0 <= start <= end <= p.len(),
        last_dot(p, start, end) > start,
    ensures
        last_dot(p, start, end) < end,
        p[last_dot(p, start, end)] == '.',
    decreases end - start,
{
    if end > start && p[end - 1] != '.' {
        lemma_last_dot_is_dot(p, start, end - 1);
    }
}

/// On Unix whatever ends in `/` leads to the name that follows; so does nothing at all.
pub proof fn slashes_lead_to_names_on_unix(dir: Seq<char>, name: Seq<char>)
    requires
        dir.len() > 0 ==> dir.last() == '/',
        name.len() > 0,
        name != seq!['.'] && name != seq!['.', '.'],
        !name.contains('/'),
    ensures
        leads_to_name(PathStyle::Unix, dir, name),
{
    let p = dir + name;
    if dir.len() == 0 {
        assert(p[0] == name[0]);
    }
    assert forall|i: int| 0 <= i < name.len() implies !is_separator(
        rules_of(PathStyle::Unix, p),
        #[trigger] name[i],
    ) by {
        assert(name[i] != '/');
    }
}

/// On Windows a drive and whatever ends in a separator behind it lead to the name that follows.
pub proof fn separators_lead_to_names_on_windows(dir: Seq<char>, name: Seq<char>)
    requires
        dir.len() > 2,
        'a' <= dir[0] <= 'z' || 'A' <= dir[0] <= 'Z',
        dir[1] == ':',
        dir.last() == '/' || dir.last() == '\\',
        name.len() > 0,
        name != seq!['.'] && name != seq!['.', '.'],
        !name.contains('/') && !name.contains('\\'),
    ensures
        leads_to_name(PathStyle::Windows, dir, name),
{
    let p = dir + name;
    assert(p[0] == dir[0] && p[1] == dir[1]);
    assert(p[2] == dir[2]);
    assert forall|i: int| 0 <= i < name.len() implies !is_separator(
        rules_of(PathStyle::Windows, p),
        #[trigger] name[i],
    ) by {
        assert(name[i] != '/' && name[i] != '\\');
    }
}

/// The parent of a path is what stands before its file name, without the separator between them.
pub proof fn a_parent_is_what_stands_before_the_name(
    style: PathStyle,
    dir: Seq<char>,
    sep: char,
    name: Seq<char>,
)
    requires
        leads_to_name(style, dir + seq![sep], name),
        is_separator(rules_of(style, dir + seq![sep] + name), sep),
        body_start(style, dir + seq![sep] + name) < dir.len(),
        !is_separator(rules_of(style, dir + seq![sep] + name), dir.last()),
        dir.last() != '.',
    ensures
        parent(style, dir + seq![sep] + name) == Some(dir),
{
    let p = dir + seq![sep] + name;
    let rules = rules_of(style, p);
    let base = body_start(style, p);
    let start = (dir.len() + 1) as int;
    a_path_ends_in_its_name(style, dir + seq![sep], name);
    lemma_prefix_bounds(style, p);
    assert(p[start - 1] == sep);
    assert(p[start - 2] == dir.last());
    lemma_segment_start(rules, p, base, dir.len() as int);
    assert(segment_start(rules, p, base, start) == start);
    assert(last_component(rules, p, base, start) == last_component(rules, p, base, start - 1));
    assert(p.take(dir.len() as int) =~= dir);
}

/// A bare file name lies in the current directory, and one right under the root in the root.
pub proof fn a_bare_name_has_an_empty_parent(name: Seq<char>)
    requires
        name.len() > 0,
        name != seq!['.'] && name != seq!['.', '.'],
        !name.contains('/'),
    ensures
        parent(PathStyle::Unix, name) == Some(Seq::<char>::empty()),
        parent(PathStyle::Unix, seq!['/'] + name) == Some(seq!['/']),
{
    let style = PathStyle::Unix;
    let none = Seq::<char>::empty();
    slashes_lead_to_names_on_unix(none, name);
    a_path_ends_in_its_name(style, none, name);
    assert(none + name =~= name);
    assert(name[0] != '/');
    assert(name.take(0) =~= none);
    slashes_lead_to_names_on_unix(seq!['/'], name);
    a_path_ends_in_its_name(style, seq!['/'], name);
    let p = seq!['/'] + name;
    assert(p[0] == '/');
    assert(p.take(1) =~= seq!['/']);
}

/// Being the same path is an equivalence.
pub proof fn being_the_same_path_is_an_equivalence(
    style: PathStyle,
    a: Seq<char>,
    b: Seq<char>,
    c: Seq<char>,
)
    ensures
        same_path(style, a, a),
        same_path(style, a, b) == same_path(style, b, a),
        same_path(style, a, b) && same_path(style, b, c) ==> same_path(style, a, c),
{
}

/// Paths with different file names are different, whatever directories they lie in.
pub proof fn the_same_path_has_the_same_name(
    style: PathStyle,
    dir: Seq<char>,
    name: Seq<char>,
    other_dir: Seq<char>,
    other: Seq<char>,
)
    requires
        leads_to_name(style, dir, name),
        leads_to_name(style, other_dir, other),
        same_path(style, dir + name, other_dir + other),
    ensures
        name == other,
{
    let p = dir + name;
    let q = other_dir + other;
    a_path_ends_in_its_name(style, dir, name);
    a_path_ends_in_its_name(style, other_dir, other);
    lemma_prefix_bounds(style, p);
    lemma_prefix_bounds(style, q);
    assert(all_components(style, p).last() == name);
    assert(all_components(style, q).last() == other);
}

proof fn lemma_components_agree(
    rules: PathRules,
    p: Seq<char>,
    q: Seq<char>,
    base: int,
    end: int,
)
    requires
        0 <= base <= end <= p.len(),
        end <= q.len(),
        forall|i: int| 0 <= i < end ==> p[i] == q[i],
    ensures
        segment_start(rules, p, base, end) == segment_start(rules, q, base, end),
        last_component(rules, p, base, end) == last_component(rules, q, base, end),
        components(rules, p, base, end) == components(rules, q, base, end),
    decreases end - base,
{
    if base < end {
        lemma_components_agree(rules, p, q, base, end - 1);
        lemma_component_bounds(rules, p, base, end);
        if let Some((start, stop)) = last_component(rules, p, base, end) {
            lemma_components_agree(rules, p, q, base, start);
            assert(p.subrange(start, stop) =~= q.subrange(start, stop));
        }
    }
}

/// A separator behind a path makes no other path of it, nor does one with a `.` behind it.
pub proof fn trailing_separators_make_no_difference(p: Seq<char>)
    requires
        p.len() > 0,
    ensures
        same_path(PathStyle::Unix, p + seq!['/'], p),
        same_path(PathStyle::Unix, p + seq!['/', '.'], p),
{
    let style = PathStyle::Unix;
    let rules = PathRules::Unix;
    let base = body_start(style, p);
    let end = p.len() as int;
    let q = p + seq!['/'];
    let r = p + seq!['/', '.'];
    assert(q[0] == p[0] && r[0] == p[0]);
    assert(prefix_form(style, q) =~= prefix_form(style, p));
    assert(prefix_form(style, r) =~= prefix_form(style, p));
    lemma_components_agree(rules, p, q, base, end);
    lemma_components_agree(rules, p, r, base, end);
    assert(q[end] == '/' && r[end] == '/' && r[end + 1] == '.');
    lemma_component_bounds(rules, p, base, end);
    assert(segment_start(rules, q, base, end + 1) == end + 1);
    assert(last_component(rules, q, base, end + 1) == last_component(rules, q, base, end));
    assert(segment_start(rules, r, base, end + 1) == end + 1);
    assert(segment_start(rules, r, base, end + 2) == end + 1);
    assert(last_component(rules, r, base, end + 1) == last_component(rules, r, base, end));
    assert(last_component(rules, r, base, end + 2) == last_component(rules, r, base, end + 1));
}

/// Paths that are the same have the same extension.
pub proof fn lemma_same_path_same_extension(style: PathStyle, a: Seq<char>, b: Seq<char>)
    requires
        same_path(style, a, b),
        extension(style, a) is Some,
        extension(style, b) is Some,
    ensures
        extension(style, a) == extension(style, b),
{
    lemma_last_component_is_last(style, a);
    lemma_last_component_is_last(style, b);
    let (start, stop) = name_span(style, a)->0;
    let (other_start, other_stop) = name_span(style, b)->0;
    let name = a.subrange(start, stop);
    assert(name == b.subrange(other_start, other_stop));
    lemma_last_dot_shift(a, start, stop, name);
    lemma_last_dot_shift(b, other_start, other_stop, name);
    let dot = last_dot(a, start, stop);
    let other_dot = last_dot(b, other_start, other_stop);
    lemma_last_dot_is_dot(a, start, stop);
    lemma_last_dot_is_dot(b, other_start, other_stop);
    assert(a.subrange(dot + 1, stop) =~= name.subrange(dot + 1 - start, name.len() as int));
    assert(b.subrange(other_dot + 1, other_stop) =~= name.subrange(
        other_dot + 1 - other_start,
        name.len() as int,
    ));
}

proof fn lemma_last_component_is_last(style: PathStyle, p: Seq<char>)
    requires
        name_span(style, p) is Some,
    ensures
        ({
            let (start, stop) = name_span(style, p)->0;
            &&& 0 <= start < stop <= p.len()
            &&& all_components(style, p).len() > 0
            &&& all_components(style, p).last() == p.subrange(start, stop)
        }),
{
    lemma_prefix_bounds(style, p);
    lemma_component_bounds(rules_of(style, p), p, body_start(style, p), p.len() as int);
}

proof fn lemma_last_dot_shift(p: Seq<char>, start: int, end: int, name: Seq<char>)
    requires
        0 <= start <= end <= p.len(),
        name == p.subrange(start, end),
    ensures
        last_dot(p, start, end) == start + last_dot(name, 0, name.len() as int),
    decreases end - start,
{
    if start < end {
        assert(name[end - start - 1] == p[end - 1]);
        lemma_last_dot_shift(p, start, end - 1, p.subrange(start, end - 1));
        lemma_last_dot_agrees(name, p.subrange(start, end - 1), end - start - 1);
    }
}

proof fn lemma_last_dot_agrees(p: Seq<char>, q: Seq<char>, end: int)
    requires
        0 <= end <= p.len(),
        end <= q.len(),
        forall|i: int| 0 <= i < end ==> p[i] == q[i],
    ensures
        last_dot(p, 0, end) == last_dot(q, 0, end),
    decreases end,
{
    if end > 0 {
        lemma_last_dot_agrees(p, q, end - 1);
    }
}

/// The components before a name are those of what stands before the separators in front of it.
proof fn lemma_components_before_name(dir: Seq<char>, gap: Seq<char>, name: Seq<char>)
    requires
        dir.len() > 0,
        gap == seq!['/'] || gap == seq!['/', '/'] || gap == seq!['/', '.', '/'],
        name.len() > 0,
        name != seq!['.'] && name != seq!['.', '.'],
        !name.contains('/'),
    ensures
        all_components(PathStyle::Unix, dir + gap + name) == all_components(
            PathStyle::Unix,
            dir,
        ).push(name),
        has_root(PathStyle::Unix, dir + gap + name) == has_root(PathStyle::Unix, dir),
        prefix_form(PathStyle::Unix, dir + gap + name) == prefix_form(PathStyle::Unix, dir),
{
    let style = PathStyle::Unix;
    let rules = PathRules::Unix;
    let p = dir + gap + name;
    let base = body_start(style, dir);
    let end = dir.len() as int;
    let start = (dir.len() + gap.len()) as int;
    assert(p[0] == dir[0]);
    assert((dir + gap).last() == '/');
    slashes_lead_to_names_on_unix(dir + gap, name);
    a_path_ends_in_its_name(style, dir + gap, name);
    assert(prefix_form(style, p) =~= prefix_form(style, dir));
    lemma_components_agree(rules, dir, p, base, end);
    lemma_component_bounds(rules, p, base, end);
    assert(p[end] == '/');
    assert(segment_start(rules, p, base, end + 1) == end + 1);
    assert(last_component(rules, p, base, end + 1) == last_component(rules, p, base, end));
    if gap.len() > 1 {
        assert(p[end + 1] == gap[1]);
        if gap.len() == 2 {
            assert(segment_start(rules, p, base, end + 2) == end + 2);
        } else {
            assert(segment_start(rules, p, base, end + 2) == end + 1);
            assert(p[end + 2] == '/');
            assert(segment_start(rules, p, base, end + 3) == end + 3);
        }
        assert(last_component(rules, p, base, end + 2) == last_component(rules, p, base, end + 1));
    }
    assert(last_component(rules, p, base, start) == last_component(rules, p, base, end));
    assert(components(rules, p, base, start) == components(rules, p, base, end));
    assert(p.subrange(start, p.len() as int) =~= name);
}

/// It makes no difference how many separators stand between a directory and a name, nor whether a
/// `.` stands between them.
pub proof fn repeated_separators_make_no_difference(dir: Seq<char>, name: Seq<char>)
    requires
        dir.len() > 0,
        name.len() > 0,
        name != seq!['.'] && name != seq!['.', '.'],
        !name.contains('/'),
    ensures
        same_path(PathStyle::Unix, dir + seq!['/', '/'] + name, dir + seq!['/'] + name),
        same_path(PathStyle::Unix, dir + seq!['/', '.', '/'] + name, dir + seq!['/'] + name),
{
    lemma_components_before_name(dir, seq!['/'], name);
    lemma_components_before_name(dir, seq!['/', '/'], name);
    lemma_components_before_name(dir, seq!['/', '.', '/'], name);
}

/// Names in two directories are the same path exactly where the directories are and the names
/// are.
pub proof fn paths_are_the_same_part_by_part(
    dir: Seq<char>,
    name: Seq<char>,
    other_dir: Seq<char>,
    other: Seq<char>,
)
    requires
        dir.len() > 0 && other_dir.len() > 0,
        name.len() > 0 && other.len() > 0,
        name != seq!['.'] && name != seq!['.', '.'],
        other != seq!['.'] && other != seq!['.', '.'],
        !name.contains('/') && !other.contains('/'),
    ensures
        same_path(PathStyle::Unix, dir + seq!['/'] + name, other_dir + seq!['/'] + other) <==> name
            == other && same_path(PathStyle::Unix, dir, other_dir),
{
    lemma_components_before_name(dir, seq!['/'], name);
    lemma_components_before_name(other_dir, seq!['/'], other);
    let own = all_components(PathStyle::Unix, dir);
    let others = all_components(PathStyle::Unix, other_dir);
    assert(own.push(name).drop_last() =~= own);
    assert(others.push(other).drop_last() =~= others);
    assert(own.push(name).last() == name);
    assert(others.push(other).last() == other);
}

/// A path from the root is another path than the same one from where one stands, and a name is
/// another path than that name behind `./`.
pub proof fn a_root_and_a_leading_dot_count(name: Seq<char>)
    requires
        name.len() > 0,
        name != seq!['.'] && name != seq!['.', '.'],
        !name.contains('/'),
    ensures
        !same_path(PathStyle::Unix, seq!['/'] + name, name),
        !same_path(PathStyle::Unix, seq!['.', '/'] + name, name),
{
    let style = PathStyle::Unix;
    let rules = PathRules::Unix;
    let none = Seq::<char>::empty();
    assert(name[0] != '/');
    assert((seq!['/'] + name)[0] == '/');
    slashes_lead_to_names_on_unix(none, name);
    a_path_ends_in_its_name(style, none, name);
    assert(none + name =~= name);
    assert(components(rules, name, 0, 0) =~= Seq::<Seq<char>>::empty());
    assert(all_components(style, name).len() == 1);
    let dot = seq!['.'];
    assert(dot + seq!['/'] + name =~= seq!['.', '/'] + name);
    lemma_components_before_name(dot, seq!['/'], name);
    assert(segment_start(rules, dot, 0, 1) == 0) by {
        assert(segment_start(rules, dot, 0, 0) == 0);
    }
    assert(last_component(rules, dot, 0, 1) == Some((0int, 1int)));
    assert(all_components(style, dot).len() > 0);
}

/// On Unix a relative path goes behind the path that it is seen from, with one separator between
/// them; one from the root stands for itself, wherever it is seen from.
pub proof fn a_joined_path_goes_on_from_the_first(p: Seq<char>, part: Seq<char>)
    requires
        part.len() > 0,
    ensures
        part[0] == '/' ==> joined(PathStyle::Unix, p, part) == part,
        part[0] != '/' && p.len() == 0 ==> joined(PathStyle::Unix, p, part) == part,
        part[0] != '/' && p.len() > 0 && p.last() == '/' ==> joined(PathStyle::Unix, p, part) == p
            + part,
        part[0] != '/' && p.len() > 0 && p.last() != '/' ==> joined(PathStyle::Unix, p, part) == p
            + seq!['/'] + part,
{
    let whole = joined(PathStyle::Unix, p, part);
    if part[0] == '/' || p.len() == 0 {
        assert(whole =~= part);
    } else if p.last() == '/' {
        assert(whole =~= p + part);
    }
}

} // verus!
