//! What the GTK 4.6 compose-table workaround decides without touching the file
//! system: which desktop names GIO accepts, which `mimeapps.list` files it
//! consults and in what order, which characters keyd macros type, and which
//! compose lines produce them.

use vstd::prelude::*;

use crate::documents::opt_text;
use crate::text::{
    chars_of, is_white_space, leading_white, lemma_leading_white, lemma_split_on_join,
    lemma_split_on_nonempty, split_chars, split_on, string_of, white_space,
};

verus! {

/// The unprefixed association file GIO falls back to.
pub const MIMEAPPS_LIST: &'static str = "mimeapps.list";

/// ASCII letters, digits, `-` and `_`: the characters GIO allows in a desktop name.
pub open spec fn desktop_char_ok(c: char) -> bool {
    let u = c as u32;
    u == 45 || u == 95 || (48 <= u <= 57) || (65 <= u <= 90) || (97 <= u <= 122)
}

/// An `XDG_CURRENT_DESKTOP` entry GIO accepts: non-empty, and made of ASCII
/// alphanumerics, `-` and `_` only.
pub open spec fn valid_xdg_desktop(d: Seq<char>) -> bool {
    d.len() > 0 && forall|i: int| 0 <= i < d.len() ==> #[trigger] desktop_char_ok(d[i])
}

/// `c` with an ASCII upper-case letter lowered.
pub open spec fn lower_char(c: char) -> char {
    if 65 <= (c as u32) <= 90 {
        ((c as u32) + 32) as char
    } else {
        c
    }
}

/// The desktop-specific association file for a valid desktop name.
pub open spec fn desktop_mimeapps_name(d: Seq<char>) -> Seq<char> {
    d.map_values(|c: char| lower_char(c)) + seq!['-'] + MIMEAPPS_LIST@
}

/// GIO's lookup order: one `<desktop>-mimeapps.list` per valid colon-separated
/// entry, lowercased, in order, then the unprefixed `mimeapps.list`.
pub open spec fn mimeapps_names(current_desktop: Seq<char>) -> Seq<Seq<char>> {
    split_on(current_desktop, ':').filter(|d: Seq<char>| valid_xdg_desktop(d)).map_values(
        |d: Seq<char>| desktop_mimeapps_name(d),
    ).push(MIMEAPPS_LIST@)
}

fn desktop_char_allowed(c: char) -> (r: bool)
    ensures
        r == desktop_char_ok(c),
{
    let u = c as u32;
    u == 45 || u == 95 || (48 <= u && u <= 57) || (65 <= u && u <= 90) || (97 <= u && u <= 122)
}

fn desktop_name_allowed(d: &Vec<char>) -> (r: bool)
    ensures
        r == valid_xdg_desktop(d@),
{
    if d.len() == 0 {
        return false;
    }
    let mut i: usize = 0;
    while i < d.len()
        invariant
            i <= d.len(),
            forall|j: int| 0 <= j < i ==> #[trigger] desktop_char_ok(d@[j]),
        decreases d.len() - i,
    {
        if !desktop_char_allowed(d[i]) {
            return false;
        }
        i = i + 1;
    }
    true
}

/// Whether GIO accepts `desktop` as an `XDG_CURRENT_DESKTOP` entry.
pub fn is_valid_xdg_desktop(desktop: &str) -> (r: bool)
    ensures
        r == valid_xdg_desktop(desktop@),
{
    let cs = chars_of(desktop);
    desktop_name_allowed(&cs)
}

fn lowered(c: char) -> (r: char)
    ensures
        r == lower_char(c),
{
    let u = c as u32;
    if 65 <= u && u <= 90 {
        let b: u8 = (u + 32) as u8;
        b as char
    } else {
        c
    }
}

fn desktop_file_name(d: &Vec<char>) -> (r: String)
    ensures
        r@ == desktop_mimeapps_name(d@),
{
    let mut out: Vec<char> = Vec::new();
    let mut i: usize = 0;
    while i < d.len()
        invariant
            i <= d.len(),
            out@ == d@.take(i as int).map_values(|c: char| lower_char(c)),
        decreases d.len() - i,
    {
        out.push(lowered(d[i]));
        assert(d@.take(i + 1) =~= d@.take(i as int).push(d@[i as int]));
        i = i + 1;
    }
    assert(d@.take(d.len() as int) =~= d@);
    out.push('-');
    let tail = chars_of(MIMEAPPS_LIST);
    let mut k: usize = 0;
    let ghost head = out@;
    while k < tail.len()
        invariant
            k <= tail.len(),
            tail@ == MIMEAPPS_LIST@,
            out@ == head + tail@.take(k as int),
        decreases tail.len() - k,
    {
        out.push(tail[k]);
        assert(tail@.take(k + 1) =~= tail@.take(k as int).push(tail@[k as int]));
        k = k + 1;
    }
    assert(tail@.take(tail.len() as int) =~= tail@);
    assert(out@ =~= desktop_mimeapps_name(d@));
    string_of(&out)
}

/// The `mimeapps.list` file names GIO consults under the user configuration
/// directory, in its own precedence order, for the given `XDG_CURRENT_DESKTOP`
/// (`None` when it is unset).
pub fn mimeapps_list_names_for(current_desktop: Option<&str>) -> (r: Vec<String>)
    ensures
        r@.len() == mimeapps_names(opt_text(current_desktop).unwrap_or(Seq::empty())).len(),
        forall|i: int|
            0 <= i < r@.len() ==> (#[trigger] r@[i])@ == mimeapps_names(
                opt_text(current_desktop).unwrap_or(Seq::empty()),
            )[i],
{
    let cs: Vec<char> = match current_desktop {
        Some(d) => chars_of(d),
        None => Vec::new(),
    };
    assert(cs@ == opt_text(current_desktop).unwrap_or(Seq::empty()));
    let fields = split_chars(&cs, ':');
    let ghost parts = split_on(cs@, ':');
    let ghost pick = |d: Seq<char>| valid_xdg_desktop(d);
    let ghost name = |d: Seq<char>| desktop_mimeapps_name(d);
    let mut names: Vec<String> = Vec::new();
    let mut i: usize = 0;
    while i < fields.len()
        invariant
            i <= fields@.len(),
            pick == (|d: Seq<char>| valid_xdg_desktop(d)),
            name == (|d: Seq<char>| desktop_mimeapps_name(d)),
            fields@.len() == parts.len(),
            forall|j: int| 0 <= j < fields@.len() ==> (#[trigger] fields@[j])@ == parts[j],
            names@.len() == parts.take(i as int).filter(pick).map_values(name).len(),
            forall|j: int|
                0 <= j < names@.len() ==> (#[trigger] names@[j])@ == parts.take(i as int).filter(
                    pick,
                ).map_values(name)[j],
        decreases fields@.len() - i,
    {
        let ghost before = parts.take(i as int).filter(pick);
        proof {
            reveal(Seq::filter);
            assert(parts.take(i + 1).drop_last() =~= parts.take(i as int));
            assert(parts.take(i + 1).last() == parts[i as int]);
        }
        if desktop_name_allowed(&fields[i]) {
            let n = desktop_file_name(&fields[i]);
            names.push(n);
            assert(fields@[i as int]@ == parts[i as int]);
            assert(pick(parts[i as int]));
            assert(parts.take(i + 1).filter(pick) == before.push(parts[i as int])) by {
                reveal(Seq::filter);
            }
            assert(name(parts[i as int]) == desktop_mimeapps_name(parts[i as int]));
            assert(before.push(parts[i as int]).map_values(name) =~= before.map_values(name).push(
                desktop_mimeapps_name(parts[i as int]),
            ));
        } else {
            assert(parts.take(i + 1).filter(pick) == before);
        }
        i = i + 1;
    }
    assert(parts.take(fields@.len() as int) =~= parts);
    let last = MIMEAPPS_LIST.to_owned();
    names.push(last);
    names
}

/// The text that opens a keyd macro binding.
pub const MACRO_OPEN: &'static str = "macro(";

/// `pat` occurs in `s` starting at index `i`.
pub open spec fn occurs_at(s: Seq<char>, pat: Seq<char>, i: int) -> bool {
    0 <= i && i + pat.len() <= s.len() && forall|k: int| 0 <= k < pat.len() ==> s[i + k] == #[trigger] pat[k]
}

/// The first index at or after `i` where `pat` occurs in `s` (`str::find` on the
/// text from `i` on).
pub open spec fn find_from(s: Seq<char>, pat: Seq<char>, i: int) -> Option<int>
    decreases s.len() - i,
{
    if i < 0 || i + pat.len() > s.len() {
        None
    } else if occurs_at(s, pat, i) {
        Some(i)
    } else {
        find_from(s, pat, i + 1)
    }
}

/// What a search finds lies within the text, at or after where it started.
pub proof fn lemma_find_from_bounds(s: Seq<char>, pat: Seq<char>, i: int)
    ensures
        find_from(s, pat, i) matches Some(k) ==> i <= k && k + pat.len() <= s.len() && occurs_at(
            s,
            pat,
            k,
        ),
    decreases s.len() - i,
{
    if !(i < 0 || i + pat.len() > s.len()) && !occurs_at(s, pat, i) {
        lemma_find_from_bounds(s, pat, i + 1);
    }
}

/// A search from `from` that passes over places with no occurrence finds what a
/// search from further on finds.
proof fn lemma_find_from_skip(s: Seq<char>, pat: Seq<char>, from: int, i: int)
    requires
        0 <= from <= i,
        forall|j: int| from <= j < i ==> !#[trigger] occurs_at(s, pat, j),
    ensures
        find_from(s, pat, from) == find_from(s, pat, i),
    decreases i - from,
{
    if from < i && from + pat.len() <= s.len() {
        lemma_find_from_skip(s, pat, from + 1, i);
    }
}

/// The characters outside ASCII among `s[a..b]`.
pub open spec fn non_ascii_between(s: Seq<char>, a: int, b: int) -> Set<char> {
    Set::new(|c: char| exists|j: int| a <= j < b && #[trigger] s[j] == c && (c as u32) >= 128)
}

/// The characters outside ASCII typed by the `macro(...)` bindings of `s` found
/// from index `pos` on: each binding runs from `macro(` to the next `)`, the scan
/// goes on after that `)`, and it stops at the first `macro(` left unclosed.
pub open spec fn macro_chars_from(s: Seq<char>, pos: int) -> Set<char>
    decreases s.len() - pos,
{
    match find_from(s, MACRO_OPEN@, pos) {
        None => Set::empty(),
        Some(p) => match find_from(s, seq![')'], p + MACRO_OPEN@.len()) {
            None => Set::empty(),
            Some(e) => {
                proof {
                    lemma_find_from_bounds(s, MACRO_OPEN@, pos);
                    lemma_find_from_bounds(s, seq![')'], p + MACRO_OPEN@.len());
                }
                non_ascii_between(s, p + MACRO_OPEN@.len(), e).union(macro_chars_from(s, e + 1))
            },
        },
    }
}

/// The characters outside ASCII typed by the `macro(...)` bindings of a keyd
/// configuration text.
pub open spec fn macro_chars(s: Seq<char>) -> Set<char> {
    macro_chars_from(s, 0)
}

fn occurs_here(s: &Vec<char>, pat: &Vec<char>, i: usize) -> (r: bool)
    requires
        i + pat@.len() <= s@.len(),
    ensures
        r == occurs_at(s@, pat@, i as int),
{
    let mut k: usize = 0;
    while k < pat.len()
        invariant
            k <= pat@.len(),
            i + pat@.len() <= s.len(),
            forall|m: int| 0 <= m < k ==> s@[i + m] == #[trigger] pat@[m],
        decreases pat@.len() - k,
    {
        assert(i + k < s@.len());
        if s[i + k] != pat[k] {
            return false;
        }
        k = k + 1;
    }
    true
}

fn find_pattern(s: &Vec<char>, pat: &Vec<char>, from: usize) -> (r: Option<usize>)
    ensures
        match r {
            Some(k) => find_from(s@, pat@, from as int) == Some(k as int),
            None => find_from(s@, pat@, from as int) is None,
        },
{
    let mut i: usize = from;
    while i <= s.len() && pat.len() <= s.len() - i
        invariant
            from <= i,
            i == from || i <= s@.len(),
            forall|j: int| from <= j < i ==> !#[trigger] occurs_at(s@, pat@, j),
        decreases s@.len() + 1 - i,
    {
        if occurs_here(s, pat, i) {
            proof {
                lemma_find_from_skip(s@, pat@, from as int, i as int);
            }
            return Some(i);
        }
        i = i + 1;
    }
    proof {
        lemma_find_from_skip(s@, pat@, from as int, i as int);
    }
    None
}

/// Adds `c` to `set` unless it is there already.
fn insert_char(set: &mut Vec<char>, c: char)
    requires
        old(set)@.no_duplicates(),
    ensures
        final(set)@.no_duplicates(),
        final(set)@.to_set() == old(set)@.to_set().insert(c),
        final(set)@.len() >= old(set)@.len(),
        final(set)@.take(old(set)@.len() as int) == old(set)@,
{
    let mut i: usize = 0;
    while i < set.len()
        invariant
            i <= set@.len(),
            set@ == old(set)@,
            old(set)@.no_duplicates(),
            forall|j: int| 0 <= j < i ==> set@[j] != c,
        decreases set@.len() - i,
    {
        if set[i] == c {
            assert(old(set)@.to_set().insert(c) =~= old(set)@.to_set());
            assert(set@.take(set@.len() as int) =~= set@);
            return;
        }
        i = i + 1;
    }
    set.push(c);
    assert(set@.to_set() =~= old(set)@.to_set().insert(c)) by {
        assert forall|x: char| #[trigger] set@.to_set().contains(x) <==> old(set)@.to_set().insert(
            c,
        ).contains(x) by {
            if old(set)@.contains(x) {
                let j = choose|j: int| 0 <= j < old(set)@.len() && old(set)@[j] == x;
                assert(set@[j] == x);
            }
            if x == c {
                assert(set@[old(set)@.len() as int] == c);
            }
        }
    }
    assert(set@.take(old(set)@.len() as int) =~= old(set)@);
}

/// Adds to `chars` every character outside ASCII inside the `macro(...)`
/// bindings of one keyd configuration text. `chars` holds each character once;
/// what it held stays, in order.
pub fn collect_macro_chars(content: &str, chars: &mut Vec<char>)
    requires
        old(chars)@.no_duplicates(),
    ensures
        final(chars)@.no_duplicates(),
        final(chars)@.to_set() == old(chars)@.to_set().union(macro_chars(content@)),
        final(chars)@.len() >= old(chars)@.len(),
        final(chars)@.take(old(chars)@.len() as int) == old(chars)@,
{
    let s = chars_of(content);
    let open = chars_of(MACRO_OPEN);
    let mut close: Vec<char> = Vec::new();
    close.push(')');
    let mut pos: usize = 0;
    loop
        invariant
            s@ == content@,
            open@ == MACRO_OPEN@,
            close@ == seq![')'],
            pos <= s@.len(),
            chars@.no_duplicates(),
            chars@.len() >= old(chars)@.len(),
            chars@.take(old(chars)@.len() as int) == old(chars)@,
            chars@.to_set().union(macro_chars_from(s@, pos as int)) == old(chars)@.to_set().union(
                macro_chars(content@),
            ),
        ensures
            chars@.no_duplicates(),
            chars@.len() >= old(chars)@.len(),
            chars@.take(old(chars)@.len() as int) == old(chars)@,
            chars@.to_set() == old(chars)@.to_set().union(macro_chars(content@)),
        decreases s@.len() - pos,
    {
        let found = find_pattern(&s, &open, pos);
        proof {
            lemma_find_from_bounds(s@, open@, pos as int);
        }
        match found {
            None => {
                assert(macro_chars_from(s@, pos as int) == Set::<char>::empty());
                assert(chars@.to_set().union(Set::empty()) =~= chars@.to_set());
                break;
            },
            Some(p) => {
                let start = p + open.len();
                let shut = find_pattern(&s, &close, start);
                proof {
                    lemma_find_from_bounds(s@, close@, start as int);
                }
                match shut {
                    None => {
                        assert(macro_chars_from(s@, pos as int) == Set::<char>::empty());
                        assert(chars@.to_set().union(Set::empty()) =~= chars@.to_set());
                        break;
                    },
                    Some(e) => {
                        let ghost before = chars@;
                        let mut k: usize = start;
                        while k < e
                            invariant
                                start <= k <= e,
                                e < s@.len(),
                                chars@.no_duplicates(),
                                chars@.len() >= before.len(),
                                chars@.take(before.len() as int) == before,
                                chars@.to_set() == before.to_set().union(
                                    non_ascii_between(s@, start as int, k as int),
                                ),
                            decreases e - k,
                        {
                            let c = s[k];
                            let ghost mid = chars@;
                            if (c as u32) >= 128 {
                                insert_char(chars, c);
                                assert(chars@.take(before.len() as int) =~= mid.take(
                                    before.len() as int,
                                )) by {
                                    assert(chars@.take(mid.len() as int) == mid);
                                }
                            }
                            assert(non_ascii_between(s@, start as int, k + 1) =~= if (c as u32)
                                >= 128 {
                                non_ascii_between(s@, start as int, k as int).insert(c)
                            } else {
                                non_ascii_between(s@, start as int, k as int)
                            });
                            assert(chars@.to_set() =~= before.to_set().union(
                                non_ascii_between(s@, start as int, k + 1),
                            ));
                            k = k + 1;
                        }
                        assert(macro_chars_from(s@, pos as int) == non_ascii_between(
                            s@,
                            start as int,
                            e as int,
                        ).union(macro_chars_from(s@, e + 1)));
                        assert(chars@.to_set().union(macro_chars_from(s@, e + 1)) =~= before.to_set().union(
                            macro_chars_from(s@, pos as int),
                        ));
                        pos = e + 1;
                    },
                }
            },
        }
    }
}

/// The index of the last `c` in `s`, or -1.
pub open spec fn last_index_of(s: Seq<char>, c: char) -> int
    decreases s.len(),
{
    if s.len() == 0 {
        -1
    } else if s.last() == c {
        s.len() - 1
    } else {
        last_index_of(s.drop_last(), c)
    }
}

/// The character a compose line produces: the right-hand side after its last
/// `:`, trimmed of white space, must open with a quoted text, and that text
/// must be exactly one character.
pub open spec fn compose_output(line: Seq<char>) -> Option<char> {
    let colon = last_index_of(line, ':');
    let rhs = line.skip(colon + 1);
    let q = rhs.skip(leading_white(rhs) as int);
    if colon >= 0 && q.len() >= 3 && q[0] == '"' && q[1] != '"' && q[2] == '"' {
        Some(q[1])
    } else {
        None
    }
}

/// A compose line is kept when it produces one of the `needed` characters.
pub open spec fn produces_needed(line: Seq<char>, needed: Seq<char>) -> bool {
    match compose_output(line) {
        Some(c) => needed.contains(c),
        None => false,
    }
}

/// `l` without one trailing carriage return.
pub open spec fn strip_cr(l: Seq<char>) -> Seq<char> {
    if l.len() > 0 && l.last() == '\r' {
        l.drop_last()
    } else {
        l
    }
}

/// The `i`th piece between newlines as a line: one ended by a newline loses a
/// carriage return before it.
pub open spec fn line_at(parts: Seq<Seq<char>>, i: int) -> Seq<char> {
    if i < parts.len() - 1 {
        strip_cr(parts[i])
    } else {
        parts[i]
    }
}

/// The number of lines: an empty piece after the last newline is no line.
pub open spec fn line_count(parts: Seq<Seq<char>>) -> int {
    if parts.last().len() == 0 {
        parts.len() - 1
    } else {
        parts.len() as int
    }
}

/// The lines of a text as `str::lines` yields them.
pub open spec fn text_lines(s: Seq<char>) -> Seq<Seq<char>> {
    let parts = split_on(s, '\n');
    Seq::new(line_count(parts) as nat, |i: int| line_at(parts, i))
}

/// The lines of a compose file that produce one of the `needed` characters, in
/// file order.
pub open spec fn compose_lines_for(content: Seq<char>, needed: Seq<char>) -> Seq<Seq<char>> {
    text_lines(content).filter(|l: Seq<char>| produces_needed(l, needed))
}

fn line_output(line: &Vec<char>) -> (r: Option<char>)
    ensures
        r == compose_output(line@),
{
    let mut colon: Option<usize> = None;
    let mut i: usize = 0;
    while i < line.len()
        invariant
            i <= line@.len(),
            match colon {
                Some(c) => c < i && last_index_of(line@.take(i as int), ':') == c as int,
                None => last_index_of(line@.take(i as int), ':') == -1,
            },
        decreases line@.len() - i,
    {
        assert(line@.take(i + 1).drop_last() =~= line@.take(i as int));
        if line[i] == ':' {
            colon = Some(i);
        }
        i = i + 1;
    }
    assert(line@.take(line@.len() as int) =~= line@);
    match colon {
        None => None,
        Some(c) => {
            let start = c + 1;
            let ghost rhs = line@.skip(start as int);
            let mut j: usize = start;
            while j < line.len() && white_space(line[j])
                invariant
                    start <= j <= line@.len(),
                    rhs == line@.skip(start as int),
                    forall|t: int| 0 <= t < j - start ==> #[trigger] is_white_space(rhs[t]),
                decreases line@.len() - j,
            {
                j = j + 1;
            }
            proof {
                lemma_leading_white(rhs, j - start);
            }
            let ghost q = rhs.skip(leading_white(rhs) as int);
            assert(q =~= line@.skip(j as int));
            if j < line.len() && line.len() - j >= 3 && line[j] == '"' && line[j + 1] != '"' && line[j + 2] == '"' {
                Some(line[j + 1])
            } else {
                None
            }
        },
    }
}

fn contains_char(set: &Vec<char>, c: char) -> (r: bool)
    ensures
        r == set@.contains(c),
{
    let mut i: usize = 0;
    while i < set.len()
        invariant
            i <= set@.len(),
            forall|j: int| 0 <= j < i ==> set@[j] != c,
        decreases set@.len() - i,
    {
        if set[i] == c {
            assert(set@[i as int] == c);
            return true;
        }
        i = i + 1;
    }
    false
}

fn without_cr(l: &Vec<char>) -> (r: Vec<char>)
    ensures
        r@ == strip_cr(l@),
{
    let n = l.len();
    let keep = if n > 0 && l[n - 1] == '\r' {
        n - 1
    } else {
        n
    };
    let mut r: Vec<char> = Vec::new();
    let mut i: usize = 0;
    while i < keep
        invariant
            keep <= l@.len(),
            i <= keep,
            r@ == l@.take(i as int),
        decreases keep - i,
    {
        r.push(l[i]);
        assert(l@.take(i + 1) =~= l@.take(i as int).push(l@[i as int]));
        i = i + 1;
    }
    assert(r@ =~= strip_cr(l@));
    r
}

/// The lines of a compose file's text that produce one of the `needed`
/// characters, in file order. The text is scanned line by line, never parsed
/// into a compose table, so a large file is safe.
pub fn keyd_compose_lines(content: &str, needed: &Vec<char>) -> (r: Vec<String>)
    ensures
        r@.len() == compose_lines_for(content@, needed@).len(),
        forall|i: int|
            0 <= i < r@.len() ==> (#[trigger] r@[i])@ == compose_lines_for(content@, needed@)[i],
{
    let s = chars_of(content);
    let parts = split_chars(&s, '\n');
    let ghost ps = split_on(s@, '\n');
    proof {
        lemma_split_on_nonempty(s@, '\n');
    }
    let n = parts.len();
    let count = if parts[n - 1].len() == 0 {
        n - 1
    } else {
        n
    };
    let ghost lines = text_lines(content@);
    let ghost keep = |l: Seq<char>| produces_needed(l, needed@);
    assert(lines.len() == count);
    let mut out: Vec<String> = Vec::new();
    let mut i: usize = 0;
    while i < count
        invariant
            i <= count,
            count <= n,
            count == lines.len(),
            n == ps.len(),
            parts@.len() == n,
            ps == split_on(content@, '\n'),
            lines == text_lines(content@),
            keep == (|l: Seq<char>| produces_needed(l, needed@)),
            forall|j: int| 0 <= j < n ==> (#[trigger] parts@[j])@ == ps[j],
            out@.len() == lines.take(i as int).filter(keep).len(),
            forall|j: int|
                0 <= j < out@.len() ==> (#[trigger] out@[j])@ == lines.take(i as int).filter(keep)[j],
        decreases count - i,
    {
        let line = if i + 1 < n {
            without_cr(&parts[i])
        } else {
            copy_chars(&parts[i])
        };
        assert(line@ == lines[i as int]);
        let ghost before = lines.take(i as int).filter(keep);
        proof {
            assert(lines.take(i + 1).drop_last() =~= lines.take(i as int));
            assert(lines.take(i + 1).last() == lines[i as int]);
        }
        let hit = match line_output(&line) {
            Some(c) => contains_char(needed, c),
            None => false,
        };
        assert(hit == keep(lines[i as int]));
        if hit {
            assert(lines.take(i + 1).filter(keep) == before.push(lines[i as int])) by {
                reveal(Seq::filter);
            }
            out.push(string_of(&line));
        } else {
            assert(lines.take(i + 1).filter(keep) == before) by {
                reveal(Seq::filter);
            }
        }
        i = i + 1;
    }
    assert(lines.take(count as int) =~= lines);
    out
}

fn copy_chars(l: &Vec<char>) -> (r: Vec<char>)
    ensures
        r@ == l@,
{
    let mut r: Vec<char> = Vec::new();
    let mut i: usize = 0;
    while i < l.len()
        invariant
            i <= l@.len(),
            r@ == l@.take(i as int),
        decreases l@.len() - i,
    {
        r.push(l[i]);
        assert(l@.take(i + 1) =~= l@.take(i as int).push(l@[i as int]));
        i = i + 1;
    }
    assert(l@.take(l@.len() as int) =~= l@);
    r
}

/// The first GTK 4 minor release whose compose-table parser copes with a
/// large compose file.
pub const FIXED_GTK_MINOR: u32 = 12;

/// The size, in bytes, above which a user compose file crashes the parser.
pub const LARGE_COMPOSE_BYTES: u64 = 8192;

/// The one environment variable the workaround redirects, for this process
/// only. The data directories are left alone: the theme search path reads them.
pub const REDIRECTED_VARIABLE: &'static str = "XDG_CONFIG_HOME";

/// The compose file that the redirect replaces inside `gtk-4.0`.
pub const COMPOSE_FILE_NAME: &'static str = "Compose";

/// The first line of the replacement compose file: the locale's own table.
pub const COMPOSE_INCLUDE_LINE: &'static str = "include \"%L\"\n";

/// Whether the workaround applies: the toolkit predates the fix, and the user
/// compose file exists and is large enough to crash it.
pub fn workaround_needed(gtk_minor: u32, compose_len: Option<u64>) -> (r: bool)
    ensures
        r == (gtk_minor < FIXED_GTK_MINOR && match compose_len {
            Some(n) => n > LARGE_COMPOSE_BYTES,
            None => false,
        }),
{
    if gtk_minor >= FIXED_GTK_MINOR {
        return false;
    }
    match compose_len {
        Some(n) => n > LARGE_COMPOSE_BYTES,
        None => false,
    }
}

/// Whether an entry of the real `gtk-4.0` directory is linked into the
/// redirected one: everything is, except the compose file being replaced.
pub fn links_into_redirect(name: &str) -> (r: bool)
    ensures
        r == (name@ != COMPOSE_FILE_NAME@),
{
    !crate::text::same_text(name, COMPOSE_FILE_NAME)
}

/// Lines joined, each ended by a newline.
pub open spec fn newline_terminated(lines: Seq<Seq<char>>) -> Seq<char>
    decreases lines.len(),
{
    if lines.len() == 0 {
        Seq::empty()
    } else {
        newline_terminated(lines.drop_last()) + lines.last() + seq!['\n']
    }
}

/// The replacement compose file: the locale's table, then the given sequences,
/// one per line.
pub fn compose_file_content(lines: &Vec<String>) -> (r: String)
    ensures
        r@ == COMPOSE_INCLUDE_LINE@ + newline_terminated(lines@.map_values(|l: String| l@)),
{
    let mut out: Vec<char> = chars_of(COMPOSE_INCLUDE_LINE);
    let ghost views = lines@.map_values(|l: String| l@);
    let mut i: usize = 0;
    while i < lines.len()
        invariant
            i <= lines@.len(),
            views == lines@.map_values(|l: String| l@),
            out@ == COMPOSE_INCLUDE_LINE@ + newline_terminated(views.take(i as int)),
        decreases lines@.len() - i,
    {
        let line = chars_of(lines[i].as_str());
        let ghost head = out@;
        let mut k: usize = 0;
        while k < line.len()
            invariant
                k <= line@.len(),
                out@ == head + line@.take(k as int),
            decreases line@.len() - k,
        {
            out.push(line[k]);
            assert(line@.take(k + 1) =~= line@.take(k as int).push(line@[k as int]));
            k = k + 1;
        }
        out.push('\n');
        proof {
            assert(line@.take(line@.len() as int) =~= line@);
            assert(views.take(i + 1).drop_last() =~= views.take(i as int));
            assert(views.take(i + 1).last() == line@);
            assert(out@ =~= COMPOSE_INCLUDE_LINE@ + newline_terminated(views.take(i + 1)));
        }
        i = i + 1;
    }
    assert(views.take(lines@.len() as int) =~= views);
    string_of(&out)
}

proof fn lemma_occurs_at_shift(x: Seq<char>, y: Seq<char>, pat: Seq<char>, k: int)
    requires
        0 <= k,
    ensures
        occurs_at(x + y, pat, x.len() + k) == occurs_at(y, pat, k),
{
    let s = x + y;
    if occurs_at(y, pat, k) {
        assert forall|i: int| 0 <= i < pat.len() implies s[x.len() + k + i] == #[trigger] pat[i] by {
            assert(s[x.len() + k + i] == y[k + i]);
        }
    }
    if occurs_at(s, pat, x.len() + k) {
        assert forall|i: int| 0 <= i < pat.len() implies y[k + i] == #[trigger] pat[i] by {
            assert(s[x.len() + k + i] == y[k + i]);
        }
    }
}

/// Searching a text that follows `x` finds what searching the text alone
/// finds, moved along by `x`'s length.
proof fn lemma_find_from_shift(x: Seq<char>, y: Seq<char>, pat: Seq<char>, k: int)
    requires
        0 <= k,
    ensures
        find_from(x + y, pat, x.len() + k) == match find_from(y, pat, k) {
            Some(j) => Some(j + x.len()),
            None => None,
        },
    decreases y.len() - k,
{
    lemma_occurs_at_shift(x, y, pat, k);
    if !(k + pat.len() > y.len()) && !occurs_at(y, pat, k) {
        lemma_find_from_shift(x, y, pat, k + 1);
        assert(x.len() + k + 1 == x.len() + (k + 1));
    }
}

/// The macro characters of a text that follows `x`, scanned from a position in
/// that text, are those of the text alone.
proof fn lemma_macro_chars_shift(x: Seq<char>, y: Seq<char>, k: int)
    requires
        0 <= k,
    ensures
        macro_chars_from(x + y, x.len() + k) == macro_chars_from(y, k),
    decreases y.len() - k,
{
    let s = x + y;
    let n: int = MACRO_OPEN@.len() as int;
    lemma_find_from_shift(x, y, MACRO_OPEN@, k);
    lemma_find_from_bounds(y, MACRO_OPEN@, k);
    match find_from(y, MACRO_OPEN@, k) {
        None => {},
        Some(p) => {
            lemma_find_from_shift(x, y, seq![')'], p + n);
            lemma_find_from_bounds(y, seq![')'], p + n);
            assert(x.len() + p + n == x.len() + (p + n));
            match find_from(y, seq![')'], p + n) {
                None => {},
                Some(e) => {
                    lemma_macro_chars_shift(x, y, e + 1);
                    assert(x.len() + e + 1 == x.len() + (e + 1));
                    assert(non_ascii_between(s, x.len() + p + n, x.len() + e) =~= non_ascii_between(
                        y,
                        p + n,
                        e,
                    )) by {
                        assert forall|c: char|
                            #[trigger] non_ascii_between(y, p + n, e).contains(c) implies non_ascii_between(
                            s,
                            x.len() + p + n,
                            x.len() + e,
                        ).contains(c) by {
                            let j = choose|j: int| p + n <= j < e && #[trigger] y[j] == c && (c as u32) >= 128;
                            assert(s[x.len() + j] == y[j]);
                        }
                        assert forall|c: char|
                            #[trigger] non_ascii_between(s, x.len() + p + n, x.len() + e).contains(c) implies non_ascii_between(
                            y,
                            p + n,
                            e,
                        ).contains(c) by {
                            let j = choose|j: int|
                                x.len() + p + n <= j < x.len() + e && #[trigger] s[j] == c && (c as u32) >= 128;
                            assert(s[j] == y[j - x.len()]);
                        }
                    }
                },
            }
        },
    }
}

/// A closed `macro(...)` binding does not end the scan: the characters a text
/// opening with one binding types are the non-ASCII characters of that
/// binding's body together with every character the rest of the text types.
pub proof fn law_every_closed_binding_is_scanned(body: Seq<char>, rest: Seq<char>)
    requires
        forall|i: int| 0 <= i < body.len() ==> body[i] != ')',
    ensures
        macro_chars(MACRO_OPEN@ + body + seq![')'] + rest) == Set::new(
            |c: char| body.contains(c) && (c as u32) >= 128,
        ).union(macro_chars(rest)),
{
    let a = MACRO_OPEN@ + body + seq![')'];
    let s = a + rest;
    let n: int = MACRO_OPEN@.len() as int;
    assert forall|i: int| 0 <= i < n implies s[0 + i] == #[trigger] MACRO_OPEN@[i] by {
        assert(s[i] == a[i]);
    }
    assert(occurs_at(s, MACRO_OPEN@, 0));
    let e: int = n + body.len();
    let close = seq![')'];
    assert(close[0] == ')');
    assert forall|j: int| n <= j < e implies !#[trigger] occurs_at(s, close, j) by {
        assert(s[j] == a[j]);
        assert(a[j] == (MACRO_OPEN@ + body)[j]);
        assert((MACRO_OPEN@ + body)[j] == body[j - n]);
        assert(body[j - n] != ')');
        assert(s[j + 0] != close[0]);
    }
    lemma_find_from_skip(s, close, n, e);
    assert(s[e] == a[e]);
    assert(s[e + 0] == close[0]);
    assert(occurs_at(s, close, e));
    lemma_find_from_bounds(s, MACRO_OPEN@, 0);
    lemma_find_from_bounds(s, seq![')'], n);
    lemma_macro_chars_shift(a, rest, 0);
    assert(a.len() + 0 == e + 1);
    assert(non_ascii_between(s, n, e) =~= Set::new(|c: char| body.contains(c) && (c as u32) >= 128)) by {
        assert forall|c: char| #[trigger] body.contains(c) && (c as u32) >= 128 implies non_ascii_between(
            s,
            n,
            e,
        ).contains(c) by {
            let j = choose|j: int| 0 <= j < body.len() && body[j] == c;
            assert(s[n + j] == a[n + j]);
            assert(a[n + j] == (MACRO_OPEN@ + body)[n + j]);
            assert(s[n + j] == body[j]);
        }
        assert forall|c: char| #[trigger] non_ascii_between(s, n, e).contains(c) implies body.contains(c) && (
        c as u32) >= 128 by {
            let j = choose|j: int| n <= j < e && #[trigger] s[j] == c && (c as u32) >= 128;
            assert(s[j] == a[j]);
            assert(a[j] == (MACRO_OPEN@ + body)[j]);
            assert(s[j] == body[j - n]);
        }
    }
}

proof fn lemma_last_index_past(p: Seq<char>, y: Seq<char>, c: char)
    requires
        forall|i: int| 0 <= i < y.len() ==> y[i] != c,
    ensures
        last_index_of(p + y, c) == last_index_of(p, c),
    decreases y.len(),
{
    if y.len() > 0 {
        assert((p + y).drop_last() =~= p + y.drop_last());
        assert((p + y).last() == y.last());
        lemma_last_index_past(p, y.drop_last(), c);
    } else {
        assert(p + y =~= p);
    }
}

/// A compose line whose right-hand side, after its last colon and any white
/// space, is one quoted character produces that character; a line with no
/// colon, or whose right-hand side does not open with a quote, produces none.
pub proof fn law_a_compose_line_produces_its_quoted_character(
    lhs: Seq<char>,
    ws: Seq<char>,
    c: char,
    tail: Seq<char>,
)
    requires
        forall|i: int| 0 <= i < ws.len() ==> #[trigger] is_white_space(ws[i]),
        c != '"',
        c != ':',
        forall|i: int| 0 <= i < tail.len() ==> tail[i] != ':',
    ensures
        compose_output(lhs + seq![':'] + ws + seq!['"', c, '"'] + tail) == Some(c),
        forall|line: Seq<char>|
            (forall|i: int| 0 <= i < line.len() ==> line[i] != ':') ==> #[trigger] compose_output(
                line,
            ) is None,
{
    let head = lhs + seq![':'];
    let y = ws + seq!['"', c, '"'] + tail;
    let line = lhs + seq![':'] + ws + seq!['"', c, '"'] + tail;
    assert(line =~= head + y);
    assert forall|i: int| 0 <= i < y.len() implies y[i] != ':' by {
        if i < ws.len() {
            assert(y[i] == ws[i]);
            assert(is_white_space(ws[i]));
        } else if i < ws.len() + 3 {
        } else {
            assert(y[i] == tail[i - ws.len() - 3]);
        }
    }
    lemma_last_index_past(head, y, ':');
    assert(head.drop_last() =~= lhs);
    assert(last_index_of(head, ':') == lhs.len());
    let rhs = line.skip(lhs.len() + 1int);
    assert(rhs =~= y);
    assert forall|t: int| 0 <= t < ws.len() implies #[trigger] is_white_space(rhs[t]) by {
        assert(rhs[t] == ws[t]);
    }
    assert(rhs[ws.len() as int] == '"');
    lemma_leading_white(rhs, ws.len() as int);
    let q = rhs.skip(ws.len() as int);
    assert(q[0] == '"' && q[1] == c && q[2] == '"');
    assert forall|l: Seq<char>|
        (forall|i: int| 0 <= i < l.len() ==> l[i] != ':') implies #[trigger] compose_output(l) is None by {
        lemma_last_index_past(Seq::<char>::empty(), l, ':');
        assert(Seq::<char>::empty() + l =~= l);
    }
}

/// GIO's lookup order distributes over the entries of `XDG_CURRENT_DESKTOP`:
/// the files for `a:b` are those `a` adds, in order, then those for `b`, so the
/// order of the entries is kept and the unprefixed file comes once, last. A
/// single entry with no colon adds its own lowercased file when GIO accepts
/// it, and nothing when it does not.
pub proof fn law_desktop_entries_keep_their_order(a: Seq<char>, b: Seq<char>)
    ensures
        mimeapps_names(a + seq![':'] + b) == mimeapps_names(a).drop_last() + mimeapps_names(b),
        mimeapps_names(a).last() == MIMEAPPS_LIST@,
        (forall|i: int| 0 <= i < a.len() ==> a[i] != ':') ==> mimeapps_names(a) == if valid_xdg_desktop(
            a,
        ) {
            seq![a.map_values(|c: char| lower_char(c)) + seq!['-'] + MIMEAPPS_LIST@, MIMEAPPS_LIST@]
        } else {
            seq![MIMEAPPS_LIST@]
        },
{
    let pick = |d: Seq<char>| valid_xdg_desktop(d);
    let name = |d: Seq<char>| desktop_mimeapps_name(d);
    lemma_split_on_join(a, b, ':');
    let pa = split_on(a, ':');
    let pb = split_on(b, ':');
    Seq::filter_distributes_over_add(pa, pb, pick);
    let fa = pa.filter(pick);
    let fb = pb.filter(pick);
    assert((fa + fb).map_values(name) =~= fa.map_values(name) + fb.map_values(name));
    assert(mimeapps_names(a).drop_last() =~= fa.map_values(name));
    assert(mimeapps_names(a + seq![':'] + b) =~= fa.map_values(name) + fb.map_values(name).push(
        MIMEAPPS_LIST@,
    ));
    if forall|i: int| 0 <= i < a.len() ==> a[i] != ':' {
        lemma_split_on_no_separator(a, ':');
        assert(pa =~= seq![a]);
        reveal_with_fuel(Seq::filter, 2);
        assert(seq![a].drop_last() =~= Seq::<Seq<char>>::empty());
        if valid_xdg_desktop(a) {
            assert(fa =~= seq![a]);
        } else {
            assert(fa =~= Seq::<Seq<char>>::empty());
        }
    }
}

proof fn lemma_split_on_no_separator(s: Seq<char>, sep: char)
    requires
        forall|i: int| 0 <= i < s.len() ==> s[i] != sep,
    ensures
        split_on(s, sep) == seq![s],
    decreases s.len(),
{
    if s.len() > 0 {
        lemma_split_on_no_separator(s.drop_last(), sep);
        assert(s.last() != sep);
        assert(s.drop_last().push(s.last()) =~= s);
        assert(seq![s.drop_last()].update(0, s.drop_last().push(s.last())) =~= seq![s]);
    } else {
        assert(s =~= Seq::<char>::empty());
    }
}

} // verus!
