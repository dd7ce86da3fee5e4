//! Small string utilities shared by the segmenter, the classifier and the
//! renderer: whitespace predicates, substring search and replacement,
//! joining, and fixed-width wrapping.

use vstd::prelude::*;

verus! {

/// The Unicode `White_Space` code points, as Rust's `char::is_whitespace`
/// documents them.
pub open spec fn is_white(c: char) -> bool {
    c == ' ' || c == '\t' || c == '\n' || c == '\u{b}' || c == '\u{c}' || c == '\r'
        || c == '\u{85}' || c == '\u{a0}' || c == '\u{1680}' || c == '\u{2000}'
        || c == '\u{2001}' || c == '\u{2002}' || c == '\u{2003}' || c == '\u{2004}'
        || c == '\u{2005}' || c == '\u{2006}' || c == '\u{2007}' || c == '\u{2008}'
        || c == '\u{2009}' || c == '\u{200a}' || c == '\u{2028}' || c == '\u{2029}'
        || c == '\u{202f}' || c == '\u{205f}' || c == '\u{3000}'
}

/// Decides whether `c` is a whitespace character.
pub fn white(c: char) -> (r: bool)
    ensures
        r == is_white(c),
{
    c == ' ' || c == '\t' || c == '\n' || c == '\u{b}' || c == '\u{c}' || c == '\r'
        || c == '\u{85}' || c == '\u{a0}' || c == '\u{1680}' || c == '\u{2000}'
        || c == '\u{2001}' || c == '\u{2002}' || c == '\u{2003}' || c == '\u{2004}'
        || c == '\u{2005}' || c == '\u{2006}' || c == '\u{2007}' || c == '\u{2008}'
        || c == '\u{2009}' || c == '\u{200a}' || c == '\u{2028}' || c == '\u{2029}'
        || c == '\u{202f}' || c == '\u{205f}' || c == '\u{3000}'
}

/// Addition on `usize` that stops at the largest representable value.
pub open spec fn spec_sat_add(a: int, b: int) -> int {
    if a + b <= usize::MAX {
        a + b
    } else {
        usize::MAX as int
    }
}

/// Adds two counters, stopping at the largest representable value.
pub fn sat_add(a: usize, b: usize) -> (r: usize)
    ensures
        r == spec_sat_add(a as int, b as int),
        r <= a + b,
{
    if a <= usize::MAX - b {
        a + b
    } else {
        usize::MAX
    }
}

/// Relies on `String::push`: appends one character at the end.
#[verifier::external_body]
pub fn push_char(s: &mut String, c: char)
    ensures
        final(s)@ == old(s)@.push(c),
{
    s.push(c);
}

/// The characters of `pat` stand in `s` at position `i`.
pub open spec fn spec_matches_at(s: Seq<char>, i: int, pat: Seq<char>) -> bool {
    0 <= i && i + pat.len() <= s.len() && s.subrange(i, i + pat.len() as int) == pat
}

/// `pat` occurs somewhere in `s`.
pub open spec fn spec_contains_seq(s: Seq<char>, pat: Seq<char>) -> bool {
    exists|i: int| spec_matches_at(s, i, pat)
}

/// Decides whether `pat` stands in `s` at position `i`.
pub fn matches_at(s: &str, i: usize, pat: &str) -> (r: bool)
    ensures
        r == spec_matches_at(s@, i as int, pat@),
{
    let sl = s.unicode_len();
    let n = pat.unicode_len();
    if i > sl || n > sl - i {
        return false;
    }
    let mut k: usize = 0;
    while k < n
        invariant
            sl == s@.len(),
            n == pat@.len(),
            i + n <= sl,
            k <= n,
            forall|j: int| 0 <= j < k ==> s@[i + j] == pat@[j],
        decreases n - k,
    {
        if s.get_char(i + k) != pat.get_char(k) {
            proof {
                assert(s@.subrange(i as int, i + n) != pat@) by {
                    assert(s@.subrange(i as int, i + n)[k as int] == s@[i + k]);
                }
            }
            return false;
        }
        k += 1;
    }
    proof {
        assert(s@.subrange(i as int, i + n) =~= pat@);
    }
    true
}

/// Decides whether `pat` occurs somewhere in `s`.
pub fn contains_sub(s: &str, pat: &str) -> (r: bool)
    ensures
        r == spec_contains_seq(s@, pat@),
{
    let sl = s.unicode_len();
    let mut i: usize = 0;
    while i < sl
        invariant
            sl == s@.len(),
            i <= sl,
            forall|j: int| 0 <= j < i ==> !spec_matches_at(s@, j, pat@),
        decreases sl - i,
    {
        if matches_at(s, i, pat) {
            return true;
        }
        i += 1;
    }
    if matches_at(s, sl, pat) {
        return true;
    }
    proof {
        assert(forall|j: int| spec_matches_at(s@, j, pat@) ==> 0 <= j <= sl);
    }
    false
}

/// Decides whether the character `c` occurs in `s`.
pub fn contains_char(s: &str, c: char) -> (r: bool)
    ensures
        r == s@.contains(c),
{
    let sl = s.unicode_len();
    let mut i: usize = 0;
    while i < sl
        invariant
            sl == s@.len(),
            i <= sl,
            forall|j: int| 0 <= j < i ==> s@[j] != c,
        decreases sl - i,
    {
        if s.get_char(i) == c {
            return true;
        }
        i += 1;
    }
    false
}

/// Every character of `s` is whitespace.
pub open spec fn spec_all_white(s: Seq<char>) -> bool {
    forall|i: int| 0 <= i < s.len() ==> is_white(#[trigger] s[i])
}

/// Decides whether `s` consists of whitespace alone.
pub fn all_white(s: &str) -> (r: bool)
    ensures
        r == spec_all_white(s@),
{
    let sl = s.unicode_len();
    let mut i: usize = 0;
    while i < sl
        invariant
            sl == s@.len(),
            i <= sl,
            forall|j: int| 0 <= j < i ==> is_white(#[trigger] s@[j]),
        decreases sl - i,
    {
        if !white(s.get_char(i)) {
            return false;
        }
        i += 1;
    }
    true
}

/// The result of replacing, left to right, each occurrence of `a` in `s` by
/// `b`; the scan continues after the replaced text, so inserted text is
/// never rescanned.
pub open spec fn spec_replace(s: Seq<char>, a: Seq<char>, b: Seq<char>) -> Seq<char>
    decreases s.len(),
    when a.len() > 0
{
    if s.len() == 0 {
        s
    } else if spec_matches_at(s, 0, a) {
        b + spec_replace(s.skip(a.len() as int), a, b)
    } else {
        seq![s[0]] + spec_replace(s.skip(1), a, b)
    }
}

/// Replaces every occurrence of `a` in `s` by `b`, left to right, without
/// rescanning the replacement text.
pub fn replace_a_to_b(s: &mut String, a: &str, b: &str)
    requires
        a@.len() > 0,
    ensures
        final(s)@ == spec_replace(old(s)@, a@, b@),
{
    let src = s.clone();
    let mut out = String::new();
    let n = src.as_str().unicode_len();
    let alen = a.unicode_len();
    let mut i: usize = 0;
    proof {
        assert(src@.skip(0) =~= src@);
        assert(out@ + spec_replace(src@, a@, b@) =~= spec_replace(src@, a@, b@));
    }
    while i < n
        invariant
            n == src@.len(),
            alen == a@.len(),
            a@.len() > 0,
            i <= n,
            src@ == old(s)@,
            spec_replace(src@, a@, b@) == out@ + spec_replace(src@.skip(i as int), a@, b@),
        decreases n - i,
    {
        let ghost rest = src@.skip(i as int);
        let ghost out0 = out@;
        if matches_at(src.as_str(), i, a) {
            out.append(b);
            proof {
                assert(rest.subrange(0, alen as int) =~= src@.subrange(i as int, i + alen));
                assert(spec_matches_at(rest, 0, a@));
                assert(rest.skip(alen as int) =~= src@.skip(i + alen));
                assert(out0 + (b@ + spec_replace(src@.skip(i + alen), a@, b@)) =~= (out0 + b@)
                    + spec_replace(src@.skip(i + alen), a@, b@));
            }
            i += alen;
        } else {
            let c = src.as_str().get_char(i);
            push_char(&mut out, c);
            proof {
                if spec_matches_at(rest, 0, a@) {
                    assert(rest.subrange(0, alen as int) =~= src@.subrange(i as int, i + alen));
                    assert(false);
                }
                assert(rest.skip(1) =~= src@.skip(i + 1));
                assert(rest[0] == c);
                assert(out0 + (seq![c] + spec_replace(src@.skip(i + 1), a@, b@)) =~= out0.push(c)
                    + spec_replace(src@.skip(i + 1), a@, b@));
            }
            i += 1;
        }
    }
    proof {
        assert(src@.skip(n as int) =~= Seq::<char>::empty());
        assert(out@ + spec_replace(src@.skip(n as int), a@, b@) =~= out@);
    }
    *s = out;
}

/// The items of `items` joined with `d` between consecutive items.
pub open spec fn spec_implode(items: Seq<Seq<char>>, d: Seq<char>) -> Seq<char>
    decreases items.len(),
{
    if items.len() == 0 {
        Seq::empty()
    } else if items.len() == 1 {
        items[0]
    } else {
        spec_implode(items.drop_last(), d) + d + items.last()
    }
}

/// Joins the strings of `s`, writing `delim` between consecutive items.
pub fn implode(s: &Vec<String>, delim: &str) -> (r: String)
    ensures
        r@ == spec_implode(s.deep_view(), delim@),
{
    let mut ret = String::new();
    let mut i: usize = 0;
    while i < s.len()
        invariant
            i <= s.len(),
            ret@ == spec_implode(s.deep_view().take(i as int), delim@),
        decreases s.len() - i,
    {
        let ghost prefix = s.deep_view().take(i as int);
        if i > 0 {
            ret.append(delim);
        }
        ret.append(s[i].as_str());
        proof {
            let next = s.deep_view().take(i + 1);
            assert(next.drop_last() =~= prefix);
            assert(next.last() == s.deep_view()[i as int]);
            if i == 0 {
                assert(ret@ =~= next[0]);
            }
        }
        i += 1;
    }
    proof {
        assert(s.deep_view().take(s.len() as int) =~= s.deep_view());
    }
    ret
}

/// All items of `items` joined in order, with nothing between them.
pub open spec fn spec_concat(items: Seq<Seq<char>>) -> Seq<char>
    decreases items.len(),
{
    if items.len() == 0 {
        Seq::empty()
    } else {
        spec_concat(items.drop_last()) + items.last()
    }
}

/// Joins the strings of `s` in order, with nothing between them.
pub fn concat_all(s: &Vec<String>) -> (r: String)
    ensures
        r@ == spec_concat(s.deep_view()),
{
    let mut ret = String::new();
    let mut i: usize = 0;
    while i < s.len()
        invariant
            i <= s.len(),
            ret@ == spec_concat(s.deep_view().take(i as int)),
        decreases s.len() - i,
    {
        let ghost prefix = s.deep_view().take(i as int);
        ret.append(s[i].as_str());
        proof {
            let next = s.deep_view().take(i + 1);
            assert(next.drop_last() =~= prefix);
            assert(next.last() == s.deep_view()[i as int]);
        }
        i += 1;
    }
    proof {
        assert(s.deep_view().take(s.len() as int) =~= s.deep_view());
    }
    ret
}

/// Appending one more item extends the joined text by that item.
pub proof fn lemma_concat_push(items: Seq<Seq<char>>, x: Seq<char>)
    ensures
        spec_concat(items.push(x)) == spec_concat(items) + x,
{
    assert(items.push(x).drop_last() =~= items);
    assert(items.push(x).last() == x);
}

/// Fixed-width wrapping, continued from column `col`: each space that falls
/// at or past the width becomes a line break, and an existing line break
/// resets the column count.
pub open spec fn spec_wrap_from(s: Seq<char>, col: int, width: int) -> Seq<char>
    decreases s.len(),
{
    if s.len() == 0 {
        Seq::empty()
    } else if s[0] == '\n' {
        seq!['\n'] + spec_wrap_from(s.skip(1), 0, width)
    } else if s[0] == ' ' && col >= width {
        seq!['\n'] + spec_wrap_from(s.skip(1), 0, width)
    } else {
        seq![s[0]] + spec_wrap_from(s.skip(1), col + 1, width)
    }
}

/// Fixed-width wrapping of a whole text, starting at column zero.
pub open spec fn spec_wrap(s: Seq<char>, width: int) -> Seq<char> {
    spec_wrap_from(s, 0, width)
}

/// Wraps `s` to the given width: the first space at or past the width on
/// each line becomes a line break; existing breaks are kept.
pub fn wrap_text(s: &str, width: usize) -> (r: String)
    ensures
        r@ == spec_wrap(s@, width as int),
{
    let n = s.unicode_len();
    let mut out = String::new();
    let mut col: usize = 0;
    let mut i: usize = 0;
    proof {
        assert(s@.skip(0) =~= s@);
        assert(out@ + spec_wrap_from(s@, 0, width as int) =~= spec_wrap_from(
            s@,
            0,
            width as int,
        ));
    }
    while i < n
        invariant
            n == s@.len(),
            i <= n,
            col <= i,
            spec_wrap(s@, width as int) == out@ + spec_wrap_from(
                s@.skip(i as int),
                col as int,
                width as int,
            ),
        decreases n - i,
    {
        let ghost rest = s@.skip(i as int);
        let ghost out0 = out@;
        let c = s.get_char(i);
        proof {
            assert(rest[0] == c);
            assert(rest.skip(1) =~= s@.skip(i + 1));
        }
        if c == '\n' {
            push_char(&mut out, '\n');
            col = 0;
            proof {
                assert(out0 + (seq!['\n'] + spec_wrap_from(s@.skip(i + 1), 0, width as int))
                    =~= out0.push('\n') + spec_wrap_from(s@.skip(i + 1), 0, width as int));
            }
        } else if c == ' ' && col >= width {
            push_char(&mut out, '\n');
            col = 0;
            proof {
                assert(out0 + (seq!['\n'] + spec_wrap_from(s@.skip(i + 1), 0, width as int))
                    =~= out0.push('\n') + spec_wrap_from(s@.skip(i + 1), 0, width as int));
            }
        } else {
            push_char(&mut out, c);
            col += 1;
            proof {
                assert(out0 + (seq![c] + spec_wrap_from(
                    s@.skip(i + 1),
                    col as int,
                    width as int,
                )) =~= out0.push(c) + spec_wrap_from(s@.skip(i + 1), col as int, width as int));
            }
        }
        i += 1;
    }
    proof {
        assert(s@.skip(n as int) =~= Seq::<char>::empty());
        assert(out@ + spec_wrap_from(Seq::<char>::empty(), col as int, width as int) =~= out@);
    }
    out
}

/// The whitespace class used while collapsing: inside preformatted text
/// only spaces and tabs collapse, elsewhere all whitespace does.
pub open spec fn ws_for(c: char, pre: bool) -> bool {
    if pre {
        c == ' ' || c == '\t'
    } else {
        is_white(c)
    }
}

/// Each maximal run of collapsible whitespace in `s` becomes one space.
pub open spec fn spec_collapse(s: Seq<char>, pre: bool) -> Seq<char>
    decreases s.len(),
{
    if s.len() == 0 {
        Seq::empty()
    } else if ws_for(s[0], pre) && s.len() > 1 && ws_for(s[1], pre) {
        spec_collapse(s.skip(1), pre)
    } else if ws_for(s[0], pre) {
        seq![' '] + spec_collapse(s.skip(1), pre)
    } else {
        seq![s[0]] + spec_collapse(s.skip(1), pre)
    }
}

/// A text fragment after normalization: the entity `&nbsp;` becomes a
/// space, then whitespace runs collapse (only spaces and tabs inside
/// preformatted text).
pub open spec fn spec_normalize(s: Seq<char>, pre: bool) -> Seq<char> {
    spec_collapse(spec_replace(s, "&nbsp;"@, " "@), pre)
}

/// Normalizes one text fragment: `&nbsp;` becomes a space and whitespace
/// runs collapse to one space (inside preformatted text only space and tab
/// runs collapse, line breaks stay).
pub fn normalize_ws(s: &str, pre: bool) -> (r: String)
    ensures
        r@ == spec_normalize(s@, pre),
{
    proof {
        reveal_strlit("&nbsp;");
    }
    let mut t = String::from_str(s);
    replace_a_to_b(&mut t, "&nbsp;", " ");
    let src = t.as_str();
    let n = src.unicode_len();
    let mut out = String::new();
    let mut i: usize = 0;
    proof {
        assert(src@.skip(0) =~= src@);
        assert(out@ + spec_collapse(src@, pre) =~= spec_collapse(src@, pre));
    }
    while i < n
        invariant
            n == src@.len(),
            i <= n,
            src@ == spec_replace(s@, "&nbsp;"@, " "@),
            spec_collapse(src@, pre) == out@ + spec_collapse(src@.skip(i as int), pre),
        decreases n - i,
    {
        let ghost rest = src@.skip(i as int);
        let ghost out0 = out@;
        let c = src.get_char(i);
        proof {
            assert(rest[0] == c);
            assert(rest.skip(1) =~= src@.skip(i + 1));
            if i + 1 < n {
                assert(rest[1] == src@[i + 1]);
            }
        }
        let c_ws = white_for(c, pre);
        if c_ws && i + 1 < n && white_for(src.get_char(i + 1), pre) {
            // the run continues: drop this character
        } else if c_ws {
            push_char(&mut out, ' ');
            proof {
                assert(out0 + (seq![' '] + spec_collapse(src@.skip(i + 1), pre)) =~= out0.push(
                    ' ',
                ) + spec_collapse(src@.skip(i + 1), pre));
            }
        } else {
            push_char(&mut out, c);
            proof {
                assert(out0 + (seq![c] + spec_collapse(src@.skip(i + 1), pre)) =~= out0.push(c)
                    + spec_collapse(src@.skip(i + 1), pre));
            }
        }
        i += 1;
    }
    proof {
        assert(src@.skip(n as int) =~= Seq::<char>::empty());
        assert(out@ + spec_collapse(Seq::<char>::empty(), pre) =~= out@);
    }
    out
}

/// Decides the collapsible-whitespace class of one character.
pub fn white_for(c: char, pre: bool) -> (r: bool)
    ensures
        r == ws_for(c, pre),
{
    if pre {
        c == ' ' || c == '\t'
    } else {
        white(c)
    }
}

/// `w` stands at the start of `s`, or right after a dot: the dom-path
/// patterns match at component boundaries only.
pub open spec fn spec_component_start(s: Seq<char>, w: Seq<char>) -> bool {
    spec_matches_at(s, 0, w) || exists|i: int|
        0 <= i && i + 1 + w.len() <= s.len() && s[i] == '.' && spec_matches_at(s, i + 1, w)
}

/// Decides whether `w` begins a component of the dot-joined path `s`.
pub fn component_start(s: &str, w: &str) -> (r: bool)
    ensures
        r == spec_component_start(s@, w@),
{
    if matches_at(s, 0, w) {
        return true;
    }
    let sl = s.unicode_len();
    let mut i: usize = 0;
    while i < sl
        invariant
            sl == s@.len(),
            i <= sl,
            forall|j: int|
                0 <= j < i ==> !(s@[j] == '.' && spec_matches_at(s@, j + 1, w@)),
        decreases sl - i,
    {
        if s.get_char(i) == '.' {
            if matches_at(s, i + 1, w) {
                return true;
            }
        }
        i += 1;
    }
    false
}

/// A character is one of the ten decimal digits.
pub open spec fn is_digit(c: char) -> bool {
    '0' as u32 <= c as u32 <= '9' as u32
}

/// The dom path begins with a heading component: `h` followed by a digit at
/// the start of the path or right after a dot.
pub open spec fn spec_heading_path(s: Seq<char>) -> bool {
    (s.len() >= 2 && s[0] == 'h' && is_digit(s[1])) || exists|i: int|
        0 <= i && i + 3 <= s.len() && #[trigger] s[i] == '.' && s[i + 1] == 'h' && is_digit(
            s[i + 2],
        )
}

/// Decides whether the dom path holds a heading component (`h` plus digit).
pub fn heading_path(s: &str) -> (r: bool)
    ensures
        r == spec_heading_path(s@),
{
    let sl = s.unicode_len();
    if sl >= 2 && s.get_char(0) == 'h' && digit(s.get_char(1)) {
        return true;
    }
    let mut i: usize = 0;
    while i < sl
        invariant
            sl == s@.len(),
            i <= sl,
            forall|j: int|
                0 <= j < i ==> !(j + 3 <= s@.len() && #[trigger] s@[j] == '.' && s@[j + 1] == 'h'
                    && is_digit(s@[j + 2])),
        decreases sl - i,
    {
        if sl - i >= 3 && s.get_char(i) == '.' && s.get_char(i + 1) == 'h' && digit(
            s.get_char(i + 2),
        ) {
            return true;
        }
        i += 1;
    }
    false
}

/// Decides whether two strings hold the same characters.
pub fn str_eq(a: &str, b: &str) -> (r: bool)
    ensures
        r == (a@ == b@),
{
    let n = a.unicode_len();
    if n != b.unicode_len() {
        return false;
    }
    let mut i: usize = 0;
    while i < n
        invariant
            n == a@.len(),
            n == b@.len(),
            i <= n,
            forall|j: int| 0 <= j < i ==> a@[j] == b@[j],
        decreases n - i,
    {
        if a.get_char(i) != b.get_char(i) {
            return false;
        }
        i += 1;
    }
    proof {
        assert(a@ =~= b@);
    }
    true
}

/// Decides whether `c` is a decimal digit.
pub fn digit(c: char) -> (r: bool)
    ensures
        r == is_digit(c),
{
    c as u32 >= 48 && c as u32 <= 57
}

/// Finds the first occurrence of `pat` in `s`.
pub fn find_sub(s: &str, pat: &str) -> (r: Option<usize>)
    ensures
        match r {
            Some(i) => spec_matches_at(s@, i as int, pat@) && forall|j: int|
                0 <= j < i ==> !spec_matches_at(s@, j, pat@),
            None => !spec_contains_seq(s@, pat@),
        },
{
    let sl = s.unicode_len();
    let mut i: usize = 0;
    while i < sl
        invariant
            sl == s@.len(),
            i <= sl,
            forall|j: int| 0 <= j < i ==> !spec_matches_at(s@, j, pat@),
        decreases sl - i,
    {
        if matches_at(s, i, pat) {
            return Some(i);
        }
        i += 1;
    }
    if matches_at(s, sl, pat) {
        return Some(sl);
    }
    proof {
        assert(forall|j: int| spec_matches_at(s@, j, pat@) ==> 0 <= j <= sl);
    }
    None
}

/// Splits an HTTP response at the first blank line: the characters after
/// the first `CRLF CRLF` are the body; a response without one has none.
pub fn http_body(s: &str) -> (r: Option<String>)
    ensures
        match r {
            Some(b) => exists|i: int|
                #[trigger] spec_matches_at(s@, i, "\r\n\r\n"@) && (forall|j: int|
                    0 <= j < i ==> !spec_matches_at(s@, j, "\r\n\r\n"@)) && b@ == s@.skip(i + 4),
            None => !spec_contains_seq(s@, "\r\n\r\n"@),
        },
{
    proof {
        reveal_strlit("\r\n\r\n");
    }
    match find_sub(s, "\r\n\r\n") {
        Some(i) => {
            let sl = s.unicode_len();
            let b = s.substring_char(i + 4, sl);
            proof {
                assert(b@ =~= s@.skip(i + 4));
            }
            Some(String::from_str(b))
        },
        None => None,
    }
}

} // verus!
