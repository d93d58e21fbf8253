//! The grammar of the three dependency directives.
//!
//! Each construct is given twice: as a specification function on a sequence
//! of characters and a position, and as an executable function that is
//! proved to compute it. A construct either matches at a position, and then
//! yields its value and the position after it, or does not match.

use vstd::prelude::*;
use crate::parser::directive::{
    strings_view, ForwardDirective, ForwardDirectiveView, ImportDirective, ImportDirectiveView,
    Location, Namespace, NamespaceView, UseDirective, UseDirectiveView, Visibility,
    VisibilityView, Directive, DirectiveView,
};
use crate::text::string_of;

verus! {

/// Whether the standard library classifies the character as alphanumeric
/// (a Unicode letter or number).
pub uninterp spec fn alphanumeric(c: char) -> bool;

/// Specifies `char::is_alphanumeric` of the standard library: its answer is
/// the classification named [`alphanumeric`], a function of the character
/// alone.
pub assume_specification[ char::is_alphanumeric ](c: char) -> (r: bool)
    ensures
        r == alphanumeric(c),
;

/// Whitespace between the parts of a directive: space, tab, carriage return
/// and line feed.
pub open spec fn is_space(c: char) -> bool {
    c == ' ' || c == '\t' || c == '\r' || c == '\n'
}

/// Characters of identifiers: alphanumerics, `-` and `_`.
pub open spec fn is_ident_char(c: char) -> bool {
    alphanumeric(c) || c == '-' || c == '_'
}

/// Characters of the prefix pattern of `@forward ... as`: identifier
/// characters and `*`.
pub open spec fn is_prefix_char(c: char) -> bool {
    is_ident_char(c) || c == '*'
}

/// The code of a character with ASCII capitals mapped to small letters.
pub open spec fn fold_case(c: char) -> int {
    if 'A' <= c <= 'Z' {
        c as int + 32
    } else {
        c as int
    }
}

/// The end of the run of whitespace that starts at `i`.
pub open spec fn spaces_end(s: Seq<char>, i: int) -> int
    decreases s.len() - i,
{
    if 0 <= i < s.len() && is_space(s[i]) {
        spaces_end(s, i + 1)
    } else {
        i
    }
}

/// The end of the run of identifier characters that starts at `i`.
pub open spec fn ident_end(s: Seq<char>, i: int) -> int
    decreases s.len() - i,
{
    if 0 <= i < s.len() && is_ident_char(s[i]) {
        ident_end(s, i + 1)
    } else {
        i
    }
}

/// The end of the run of prefix-pattern characters that starts at `i`.
pub open spec fn prefix_end(s: Seq<char>, i: int) -> int
    decreases s.len() - i,
{
    if 0 <= i < s.len() && is_prefix_char(s[i]) {
        prefix_end(s, i + 1)
    } else {
        i
    }
}

/// The position of the first `c` at or after `i`, or the length of `s`
/// where there is none.
pub open spec fn find_char(s: Seq<char>, i: int, c: char) -> int
    decreases s.len() - i,
{
    if 0 <= i < s.len() && s[i] != c {
        find_char(s, i + 1, c)
    } else {
        i
    }
}

/// Whether `kw` stands at position `i`, ASCII case ignored.
pub open spec fn keyword_at(s: Seq<char>, i: int, kw: Seq<char>) -> bool {
    &&& 0 <= i
    &&& i + kw.len() <= s.len()
    &&& forall|k: int| 0 <= k < kw.len() ==> fold_case(#[trigger] s[i + k]) == fold_case(kw[k])
}

/// The position after the keyword `kw` at `i`, where it stands there.
pub open spec fn after_keyword(s: Seq<char>, i: int, kw: Seq<char>) -> Option<int> {
    if keyword_at(s, i, kw) {
        Some(i + kw.len())
    } else {
        None
    }
}

/// A quoted string at `i`: its content and the position after the closing
/// quote. Both `"` and `'` delimit; nothing is escaped inside.
pub open spec fn quoted_at(s: Seq<char>, i: int) -> Option<(Seq<char>, int)> {
    if 0 <= i < s.len() && (s[i] == '"' || s[i] == '\'') {
        let close = find_char(s, i + 1, s[i]);
        if close < s.len() {
            Some((s.subrange(i + 1, close), close + 1))
        } else {
            None
        }
    } else {
        None
    }
}

fn space(c: char) -> (r: bool)
    ensures
        r == is_space(c),
{
    c == ' ' || c == '\t' || c == '\r' || c == '\n'
}

fn ident_char(c: char) -> (r: bool)
    ensures
        r == is_ident_char(c),
{
    c.is_alphanumeric() || c == '-' || c == '_'
}

fn folded(c: char) -> (r: u32)
    ensures
        r == fold_case(c),
{
    let n: u32 = c as u32;
    if 'A' <= c && c <= 'Z' {
        n + 32
    } else {
        n
    }
}

/// Skips whitespace from `i` on.
fn skip_spaces(s: &[char], i: usize) -> (j: usize)
    requires
        i <= s@.len(),
    ensures
        j == spaces_end(s@, i as int),
        i <= j <= s@.len(),
{
    let mut j: usize = i;
    while j < s.len() && space(s[j])
        invariant
            i <= j <= s@.len(),
            spaces_end(s@, i as int) == spaces_end(s@, j as int),
        decreases s@.len() - j,
    {
        j += 1;
    }
    j
}

/// Skips identifier characters from `i` on.
fn parse_identifier(s: &[char], i: usize) -> (j: usize)
    requires
        i <= s@.len(),
    ensures
        j == ident_end(s@, i as int),
        i <= j <= s@.len(),
{
    let mut j: usize = i;
    while j < s.len() && ident_char(s[j])
        invariant
            i <= j <= s@.len(),
            ident_end(s@, i as int) == ident_end(s@, j as int),
        decreases s@.len() - j,
    {
        j += 1;
    }
    j
}

/// Skips prefix-pattern characters from `i` on.
fn skip_prefix(s: &[char], i: usize) -> (j: usize)
    requires
        i <= s@.len(),
    ensures
        j == prefix_end(s@, i as int),
        i <= j <= s@.len(),
{
    let mut j: usize = i;
    while j < s.len() && (ident_char(s[j]) || s[j] == '*')
        invariant
            i <= j <= s@.len(),
            prefix_end(s@, i as int) == prefix_end(s@, j as int),
        decreases s@.len() - j,
    {
        j += 1;
    }
    j
}

/// Finds the first `c` at or after `i`.
fn find(s: &[char], i: usize, c: char) -> (j: usize)
    requires
        i <= s@.len(),
    ensures
        j == find_char(s@, i as int, c),
        i <= j <= s@.len(),
{
    let mut j: usize = i;
    while j < s.len() && s[j] != c
        invariant
            i <= j <= s@.len(),
            find_char(s@, i as int, c) == find_char(s@, j as int, c),
        decreases s@.len() - j,
    {
        j += 1;
    }
    j
}

/// Reads a keyword at `i`, ASCII case ignored.
fn parse_keyword(s: &[char], i: usize, kw: &str) -> (r: Option<usize>)
    requires
        i <= s@.len(),
    ensures
        r is Some == after_keyword(s@, i as int, kw@) is Some,
        r matches Some(end) ==> after_keyword(s@, i as int, kw@) == Some(end as int) && i <= end
            <= s@.len(),
{
    let n = kw.unicode_len();
    if n > s.len() - i {
        return None;
    }
    let mut k: usize = 0;
    while k < n
        invariant
            k <= n,
            n == kw@.len(),
            i + n <= s.len(),
            s.len() == s@.len(),
            forall|m: int| 0 <= m < k ==> fold_case(#[trigger] s@[i + m]) == fold_case(kw@[m]),
        decreases n - k,
    {
        if folded(s[i + k]) != folded(kw.get_char(k)) {
            return None;
        }
        k += 1;
    }
    Some(i + n)
}

/// Reads a quoted string at `i`.
fn parse_string(s: &[char], i: usize) -> (r: Option<(String, usize)>)
    requires
        i <= s@.len(),
    ensures
        r is Some == quoted_at(s@, i as int) is Some,
        r matches Some((text, end)) ==> quoted_at(s@, i as int) == Some((text@, end as int)) && i
            < end <= s@.len(),
{
    if i < s.len() && (s[i] == '"' || s[i] == '\'') {
        let close = find(s, i + 1, s[i]);
        if close < s.len() {
            Some((string_of(s, i + 1, close), close + 1))
        } else {
            None
        }
    } else {
        None
    }
}

/// The position after an optional `;` at `i`.
pub open spec fn semicolon_end(s: Seq<char>, i: int) -> int {
    if 0 <= i < s.len() && s[i] == ';' {
        i + 1
    } else {
        i
    }
}

/// The namespace clause of `@use`: `as`, whitespace, then `*` or an
/// identifier.
pub open spec fn use_as_at(s: Seq<char>, i: int) -> Option<(NamespaceView, int)> {
    match after_keyword(s, i, "as"@) {
        Some(j) => {
            let k = spaces_end(s, j);
            if k > j {
                if k < s.len() && s[k] == '*' {
                    Some((NamespaceView::Star, k + 1))
                } else {
                    let e = ident_end(s, k);
                    if e > k {
                        Some((NamespaceView::Named(s.subrange(k, e)), e))
                    } else {
                        None
                    }
                }
            } else {
                None
            }
        },
        None => None,
    }
}

/// The configuration clause of `@use`: `with`, optional whitespace and a
/// parenthesised text that ends at the first `)`. Yields the position after
/// the clause.
pub open spec fn with_at(s: Seq<char>, i: int) -> Option<int> {
    match after_keyword(s, i, "with"@) {
        Some(j) => {
            let k = spaces_end(s, j);
            if 0 <= k < s.len() && s[k] == '(' {
                let close = find_char(s, k + 1, ')');
                if close < s.len() {
                    Some(close + 1)
                } else {
                    None
                }
            } else {
                None
            }
        },
        None => None,
    }
}

/// The prefix clause of `@forward`: `as`, whitespace and a pattern of
/// prefix characters that ends in `-*`. The prefix is the pattern without
/// its final `*`.
pub open spec fn forward_as_at(s: Seq<char>, i: int) -> Option<(Seq<char>, int)> {
    match after_keyword(s, i, "as"@) {
        Some(j) => {
            let k = spaces_end(s, j);
            let e = prefix_end(s, k);
            if k > j && e >= k + 2 && e <= s.len() && s[e - 2] == '-' && s[e - 1] == '*' {
                Some((s.subrange(k, e - 1), e))
            } else {
                None
            }
        },
        None => None,
    }
}

/// The end of a member name at `i`: an optional `$` and at least one
/// identifier character.
pub open spec fn member_at(s: Seq<char>, i: int) -> Option<int> {
    let j = if 0 <= i < s.len() && s[i] == '$' {
        i + 1
    } else {
        i
    };
    let e = ident_end(s, j);
    if e > j {
        Some(e)
    } else {
        None
    }
}

/// The position after a list separator at `i`: a comma with optional
/// whitespace on both sides.
pub open spec fn separator_at(s: Seq<char>, i: int) -> Option<int> {
    let a = spaces_end(s, i);
    if 0 <= a < s.len() && s[a] == ',' {
        Some(spaces_end(s, a + 1))
    } else {
        None
    }
}

/// The members that follow a member ending at `i`, each behind a
/// separator, and the position after the last of them. A separator that no
/// member follows is not part of the list.
pub open spec fn members_more(s: Seq<char>, i: int) -> (Seq<Seq<char>>, int)
    decreases s.len() - i,
{
    match separator_at(s, i) {
        Some(b) => match member_at(s, b) {
            Some(e) => if i < e <= s.len() {
                let (rest, end) = members_more(s, e);
                (seq![s.subrange(b, e)] + rest, end)
            } else {
                (seq![], i)
            },
            None => (seq![], i),
        },
        None => (seq![], i),
    }
}

/// A comma-separated list of one or more members at `i`.
pub open spec fn members_at(s: Seq<char>, i: int) -> Option<(Seq<Seq<char>>, int)> {
    match member_at(s, i) {
        Some(e) => {
            let (rest, end) = members_more(s, e);
            Some((seq![s.subrange(i, e)] + rest, end))
        },
        None => None,
    }
}

/// The quoted strings that follow a string ending at `i`, each behind a
/// separator, and the position after the last of them.
pub open spec fn quoted_more(s: Seq<char>, i: int) -> (Seq<Seq<char>>, int)
    decreases s.len() - i,
{
    match separator_at(s, i) {
        Some(b) => match quoted_at(s, b) {
            Some((text, e)) => if i < e <= s.len() {
                let (rest, end) = quoted_more(s, e);
                (seq![text] + rest, end)
            } else {
                (seq![], i)
            },
            None => (seq![], i),
        },
        None => (seq![], i),
    }
}

/// A comma-separated list of one or more quoted strings at `i`.
pub open spec fn quoted_list_at(s: Seq<char>, i: int) -> Option<(Seq<Seq<char>>, int)> {
    match quoted_at(s, i) {
        Some((text, e)) => {
            let (rest, end) = quoted_more(s, e);
            Some((seq![text] + rest, end))
        },
        None => None,
    }
}

/// A visibility clause with the keyword `kw` at `i`: the keyword,
/// whitespace and a member list.
pub open spec fn listed_at(s: Seq<char>, i: int, kw: Seq<char>) -> Option<(Seq<Seq<char>>, int)> {
    match after_keyword(s, i, kw) {
        Some(j) => {
            let k = spaces_end(s, j);
            if k > j {
                members_at(s, k)
            } else {
                None
            }
        },
        None => None,
    }
}

/// The visibility of a `@forward` at `i`: a `show` clause, else a `hide`
/// clause, else everything, which takes no text.
pub open spec fn visibility_at(s: Seq<char>, i: int) -> (VisibilityView, int) {
    match listed_at(s, i, "show"@) {
        Some((list, e)) => (VisibilityView::Show(list), e),
        None => match listed_at(s, i, "hide"@) {
            Some((list, e)) => (VisibilityView::Hide(list), e),
            None => (VisibilityView::All, i),
        },
    }
}

/// A `@use` directive at `i`: the keyword, whitespace, a quoted path, then
/// optionally a namespace clause, a configuration clause and a `;`, with
/// optional whitespace between them.
pub open spec fn use_at(s: Seq<char>, i: int, location: Location) -> Option<
    (UseDirectiveView, int),
> {
    match after_keyword(s, i, "@use"@) {
        Some(j) => {
            let k = spaces_end(s, j);
            match quoted_at(s, k) {
                Some((path, p)) => if k > j {
                    let a = spaces_end(s, p);
                    let (namespace, b) = match use_as_at(s, a) {
                        Some((n, e)) => (Some(n), e),
                        None => (None, a),
                    };
                    let c = spaces_end(s, b);
                    let (configured, d) = match with_at(s, c) {
                        Some(e) => (true, e),
                        None => (false, c),
                    };
                    let end = semicolon_end(s, spaces_end(s, d));
                    Some((UseDirectiveView { path, namespace, configured, location }, end))
                } else {
                    None
                },
                None => None,
            }
        },
        None => None,
    }
}

/// A `@forward` directive at `i`: the keyword, whitespace, a quoted path,
/// then optionally a prefix clause, a visibility clause and a `;`, with
/// optional whitespace between them.
pub open spec fn forward_at(s: Seq<char>, i: int, location: Location) -> Option<
    (ForwardDirectiveView, int),
> {
    match after_keyword(s, i, "@forward"@) {
        Some(j) => {
            let k = spaces_end(s, j);
            match quoted_at(s, k) {
                Some((path, p)) => if k > j {
                    let a = spaces_end(s, p);
                    let (prefix, b) = match forward_as_at(s, a) {
                        Some((x, e)) => (Some(x), e),
                        None => (None, a),
                    };
                    let (visibility, d) = visibility_at(s, spaces_end(s, b));
                    let end = semicolon_end(s, spaces_end(s, d));
                    Some((ForwardDirectiveView { path, prefix, visibility, location }, end))
                } else {
                    None
                },
                None => None,
            }
        },
        None => None,
    }
}

/// An `@import` directive at `i`: the keyword, whitespace, one or more
/// comma-separated quoted paths and an optional `;`.
pub open spec fn import_at(s: Seq<char>, i: int, location: Location) -> Option<
    (ImportDirectiveView, int),
> {
    match after_keyword(s, i, "@import"@) {
        Some(j) => {
            let k = spaces_end(s, j);
            match quoted_list_at(s, k) {
                Some((paths, p)) => if k > j {
                    let end = semicolon_end(s, spaces_end(s, p));
                    Some((ImportDirectiveView { paths, location }, end))
                } else {
                    None
                },
                None => None,
            }
        },
        None => None,
    }
}

/// The directive at `i`, where one of the three grammars matches there:
/// `@use` is tried first, then `@forward`, then `@import`.
pub open spec fn directive_at(s: Seq<char>, i: int, location: Location) -> Option<
    (DirectiveView, int),
> {
    match use_at(s, i, location) {
        Some((d, end)) => Some((DirectiveView::Use(d), end)),
        None => match forward_at(s, i, location) {
            Some((d, end)) => Some((DirectiveView::Forward(d), end)),
            None => match import_at(s, i, location) {
                Some((d, end)) => Some((DirectiveView::Import(d), end)),
                None => None,
            },
        },
    }
}

fn skip_semicolon(s: &[char], i: usize) -> (j: usize)
    requires
        i <= s@.len(),
    ensures
        j == semicolon_end(s@, i as int),
        i <= j <= s@.len(),
{
    if i < s.len() && s[i] == ';' {
        i + 1
    } else {
        i
    }
}

fn parse_as_clause(s: &[char], i: usize) -> (r: Option<(Namespace, usize)>)
    requires
        i <= s@.len(),
    ensures
        r is Some == use_as_at(s@, i as int) is Some,
        r matches Some((n, end)) ==> use_as_at(s@, i as int) == Some((n@, end as int)) && i <= end
            <= s@.len(),
{
    match parse_keyword(s, i, "as") {
        Some(j) => {
            let k = skip_spaces(s, j);
            if k > j {
                if k < s.len() && s[k] == '*' {
                    Some((Namespace::Star, k + 1))
                } else {
                    let e = parse_identifier(s, k);
                    if e > k {
                        Some((Namespace::Named(string_of(s, k, e)), e))
                    } else {
                        None
                    }
                }
            } else {
                None
            }
        },
        None => None,
    }
}

fn parse_with_clause(s: &[char], i: usize) -> (r: Option<usize>)
    requires
        i <= s@.len(),
    ensures
        r is Some == with_at(s@, i as int) is Some,
        r matches Some(end) ==> with_at(s@, i as int) == Some(end as int) && i <= end <= s@.len(),
{
    match parse_keyword(s, i, "with") {
        Some(j) => {
            let k = skip_spaces(s, j);
            if k < s.len() && s[k] == '(' {
                let close = find(s, k + 1, ')');
                if close < s.len() {
                    Some(close + 1)
                } else {
                    None
                }
            } else {
                None
            }
        },
        None => None,
    }
}

fn parse_forward_as_clause(s: &[char], i: usize) -> (r: Option<(String, usize)>)
    requires
        i <= s@.len(),
    ensures
        r is Some == forward_as_at(s@, i as int) is Some,
        r matches Some((x, end)) ==> forward_as_at(s@, i as int) == Some((x@, end as int)) && i
            <= end <= s@.len(),
{
    match parse_keyword(s, i, "as") {
        Some(j) => {
            let k = skip_spaces(s, j);
            let e = skip_prefix(s, k);
            if k > j && e - k >= 2 && s[e - 2] == '-' && s[e - 1] == '*' {
                Some((string_of(s, k, e - 1), e))
            } else {
                None
            }
        },
        None => None,
    }
}

fn parse_member(s: &[char], i: usize) -> (r: Option<usize>)
    requires
        i <= s@.len(),
    ensures
        r is Some == member_at(s@, i as int) is Some,
        r matches Some(end) ==> member_at(s@, i as int) == Some(end as int) && i < end <= s@.len(),
{
    let j = if i < s.len() && s[i] == '$' {
        i + 1
    } else {
        i
    };
    let e = parse_identifier(s, j);
    if e > j {
        Some(e)
    } else {
        None
    }
}

fn parse_separator(s: &[char], i: usize) -> (r: Option<usize>)
    requires
        i <= s@.len(),
    ensures
        r is Some == separator_at(s@, i as int) is Some,
        r matches Some(end) ==> separator_at(s@, i as int) == Some(end as int) && i < end
            <= s@.len(),
{
    let a = skip_spaces(s, i);
    if a < s.len() && s[a] == ',' {
        Some(skip_spaces(s, a + 1))
    } else {
        None
    }
}

fn parse_member_list(s: &[char], i: usize) -> (r: Option<(Vec<String>, usize)>)
    requires
        i <= s@.len(),
    ensures
        r is Some == members_at(s@, i as int) is Some,
        r matches Some((list, end)) ==> members_at(s@, i as int) == Some(
            (strings_view(list@), end as int),
        ) && i < end <= s@.len(),
{
    let first = match parse_member(s, i) {
        Some(e) => e,
        None => {
            return None;
        },
    };
    let mut list: Vec<String> = Vec::new();
    list.push(string_of(s, i, first));
    let mut pos: usize = first;
    assert(strings_view(list@) =~= seq![s@.subrange(i as int, first as int)]);
    loop
        invariant
            i < pos <= s@.len(),
            members_at(s@, i as int) == Some(
                (strings_view(list@) + members_more(s@, pos as int).0, members_more(
                    s@,
                    pos as int,
                ).1),
            ),
        ensures
            members_more(s@, pos as int) == (Seq::<Seq<char>>::empty(), pos as int),
        decreases s@.len() - pos,
    {
        let b = match parse_separator(s, pos) {
            Some(b) => b,
            None => {
                break ;
            },
        };
        let e = match parse_member(s, b) {
            Some(e) => e,
            None => {
                break ;
            },
        };
        let ghost before = strings_view(list@);
        list.push(string_of(s, b, e));
        proof {
            let item = s@.subrange(b as int, e as int);
            assert(strings_view(list@) =~= before.push(item));
            assert(before + (seq![item] + members_more(s@, e as int).0) =~= before.push(item)
                + members_more(s@, e as int).0);
        }
        pos = e;
    }
    assert(strings_view(list@) + Seq::<Seq<char>>::empty() =~= strings_view(list@));
    Some((list, pos))
}

fn parse_quoted_list(s: &[char], i: usize) -> (r: Option<(Vec<String>, usize)>)
    requires
        i <= s@.len(),
    ensures
        r is Some == quoted_list_at(s@, i as int) is Some,
        r matches Some((list, end)) ==> quoted_list_at(s@, i as int) == Some(
            (strings_view(list@), end as int),
        ) && i < end <= s@.len(),
{
    let (text, first) = match parse_string(s, i) {
        Some(x) => x,
        None => {
            return None;
        },
    };
    let mut list: Vec<String> = Vec::new();
    assert(strings_view(seq![text]) =~= seq![text@]);
    list.push(text);
    let mut pos: usize = first;
    loop
        invariant
            i < pos <= s@.len(),
            quoted_list_at(s@, i as int) == Some(
                (strings_view(list@) + quoted_more(s@, pos as int).0, quoted_more(
                    s@,
                    pos as int,
                ).1),
            ),
        ensures
            quoted_more(s@, pos as int) == (Seq::<Seq<char>>::empty(), pos as int),
        decreases s@.len() - pos,
    {
        let b = match parse_separator(s, pos) {
            Some(b) => b,
            None => {
                break ;
            },
        };
        let (text, e) = match parse_string(s, b) {
            Some(x) => x,
            None => {
                break ;
            },
        };
        let ghost before = strings_view(list@);
        let ghost item = text@;
        list.push(text);
        proof {
            assert(strings_view(list@) =~= before.push(item));
            assert(before + (seq![item] + quoted_more(s@, e as int).0) =~= before.push(item)
                + quoted_more(s@, e as int).0);
        }
        pos = e;
    }
    assert(strings_view(list@) + Seq::<Seq<char>>::empty() =~= strings_view(list@));
    Some((list, pos))
}

fn parse_listed(s: &[char], i: usize, kw: &str) -> (r: Option<(Vec<String>, usize)>)
    requires
        i <= s@.len(),
    ensures
        r is Some == listed_at(s@, i as int, kw@) is Some,
        r matches Some((list, end)) ==> listed_at(s@, i as int, kw@) == Some(
            (strings_view(list@), end as int),
        ) && i < end <= s@.len(),
{
    match parse_keyword(s, i, kw) {
        Some(j) => {
            let k = skip_spaces(s, j);
            if k > j {
                parse_member_list(s, k)
            } else {
                None
            }
        },
        None => None,
    }
}

fn parse_visibility_clause(s: &[char], i: usize) -> (r: (Visibility, usize))
    requires
        i <= s@.len(),
    ensures
        visibility_at(s@, i as int) == (r.0@, r.1 as int),
        i <= r.1 <= s@.len(),
{
    match parse_listed(s, i, "show") {
        Some((list, e)) => (Visibility::Show(list), e),
        None => match parse_listed(s, i, "hide") {
            Some((list, e)) => (Visibility::Hide(list), e),
            None => (Visibility::All, i),
        },
    }
}

/// Reads a `@use` directive at `i`.
fn parse_use_directive(s: &[char], i: usize, location: Location) -> (r: Option<
    (UseDirective, usize),
>)
    requires
        i <= s@.len(),
    ensures
        r is Some == use_at(s@, i as int, location) is Some,
        r matches Some((d, end)) ==> use_at(s@, i as int, location) == Some((d@, end as int)) && i
            < end <= s@.len(),
{
    let j = match parse_keyword(s, i, "@use") {
        Some(j) => j,
        None => {
            return None;
        },
    };
    let k = skip_spaces(s, j);
    let (path, p) = match parse_string(s, k) {
        Some(x) => x,
        None => {
            return None;
        },
    };
    if k <= j {
        return None;
    }
    let a = skip_spaces(s, p);
    let (namespace, b) = match parse_as_clause(s, a) {
        Some((n, e)) => (Some(n), e),
        None => (None, a),
    };
    let c = skip_spaces(s, b);
    let (configured, d) = match parse_with_clause(s, c) {
        Some(e) => (true, e),
        None => (false, c),
    };
    let t = skip_spaces(s, d);
    let end = skip_semicolon(s, t);
    Some((UseDirective { path, namespace, configured, location }, end))
}

/// Reads a `@forward` directive at `i`.
fn parse_forward_directive(s: &[char], i: usize, location: Location) -> (r: Option<
    (ForwardDirective, usize),
>)
    requires
        i <= s@.len(),
    ensures
        r is Some == forward_at(s@, i as int, location) is Some,
        r matches Some((d, end)) ==> forward_at(s@, i as int, location) == Some(
            (d@, end as int),
        ) && i < end <= s@.len(),
{
    let j = match parse_keyword(s, i, "@forward") {
        Some(j) => j,
        None => {
            return None;
        },
    };
    let k = skip_spaces(s, j);
    let (path, p) = match parse_string(s, k) {
        Some(x) => x,
        None => {
            return None;
        },
    };
    if k <= j {
        return None;
    }
    let a = skip_spaces(s, p);
    let (prefix, b) = match parse_forward_as_clause(s, a) {
        Some((x, e)) => (Some(x), e),
        None => (None, a),
    };
    let c = skip_spaces(s, b);
    let (visibility, d) = parse_visibility_clause(s, c);
    let t = skip_spaces(s, d);
    let end = skip_semicolon(s, t);
    Some((ForwardDirective { path, prefix, visibility, location }, end))
}

/// Reads an `@import` directive at `i`.
fn parse_import_directive(s: &[char], i: usize, location: Location) -> (r: Option<
    (ImportDirective, usize),
>)
    requires
        i <= s@.len(),
    ensures
        r is Some == import_at(s@, i as int, location) is Some,
        r matches Some((d, end)) ==> import_at(s@, i as int, location) == Some((d@, end as int))
            && i < end <= s@.len(),
{
    let j = match parse_keyword(s, i, "@import") {
        Some(j) => j,
        None => {
            return None;
        },
    };
    let k = skip_spaces(s, j);
    let (paths, p) = match parse_quoted_list(s, k) {
        Some(x) => x,
        None => {
            return None;
        },
    };
    if k <= j {
        return None;
    }
    let t = skip_spaces(s, p);
    let end = skip_semicolon(s, t);
    Some((ImportDirective { paths, location }, end))
}

/// Reads the directive at `i`, where one of the three grammars matches
/// there.
pub(crate) fn parse_directive(s: &[char], i: usize, location: Location) -> (r: Option<
    (Directive, usize),
>)
    requires
        i <= s@.len(),
    ensures
        r is Some == directive_at(s@, i as int, location) is Some,
        r matches Some((d, end)) ==> directive_at(s@, i as int, location) == Some(
            (d@, end as int),
        ) && i < end <= s@.len(),
{
    match parse_use_directive(s, i, location) {
        Some((d, end)) => Some((Directive::Use(d), end)),
        None => match parse_forward_directive(s, i, location) {
            Some((d, end)) => Some((Directive::Forward(d), end)),
            None => match parse_import_directive(s, i, location) {
                Some((d, end)) => Some((Directive::Import(d), end)),
                None => None,
            },
        },
    }
}

} // verus!
