//! Parser for the definition files' markup: attribute bags written as
//! XML-shaped elements with attributes, nested child elements and text.
//!
//! The grammar is given by the `sp_*` specification functions below; the
//! executable parser returns exactly what they describe, so a file parses
//! successfully if and only if the grammar accepts it.

use vstd::prelude::*;

use crate::text::chars_to_string;
use crate::text::is_space;
use crate::text::match_at;
use crate::text::skip_spaces;
use crate::text::space_char;
use crate::text::first_match;

verus! {

broadcast use vstd::std_specs::vec::axiom_vec_index_decreases,
    vstd::std_specs::vec::axiom_vec_decreases_to_view;

/// One attribute of an element.
pub struct XmlAttr {
    pub name: String,
    pub value: String,
}

/// One parsed element: name, attributes, child elements, and the
/// concatenation of its text runs.
pub struct XmlElem {
    pub name: String,
    pub attrs: Vec<XmlAttr>,
    pub children: Vec<XmlElem>,
    pub text: String,
}

/// Mathematical form of an attribute.
pub struct GAttr {
    pub name: Seq<char>,
    pub value: Seq<char>,
}

/// Mathematical form of an element.
pub struct GElem {
    pub name: Seq<char>,
    pub attrs: Seq<GAttr>,
    pub children: Seq<GElem>,
    pub text: Seq<char>,
}

impl View for XmlAttr {
    type V = GAttr;

    open spec fn view(&self) -> GAttr {
        GAttr { name: self.name@, value: self.value@ }
    }
}

/// Mathematical form of one element.
pub open spec fn gelem_of(e: XmlElem) -> GElem
    decreases e, 1int,
{
    GElem {
        name: e.name@,
        attrs: e.attrs@.map_values(|a: XmlAttr| a@),
        children: gelems_of(e.children@),
        text: e.text@,
    }
}

/// Mathematical form of a list of elements.
pub open spec fn gelems_of(s: Seq<XmlElem>) -> Seq<GElem>
    decreases s, 0int,
{
    if s.len() == 0 {
        Seq::empty()
    } else {
        gelems_of(s.drop_last()).push(gelem_of(s.last()))
    }
}

impl View for XmlElem {
    type V = GElem;

    open spec fn view(&self) -> GElem {
        gelem_of(*self)
    }
}

/// Characters allowed in element and attribute names.
pub open spec fn is_name_char(c: char) -> bool {
    ('a' <= c && c <= 'z') || ('A' <= c && c <= 'Z') || ('0' <= c && c <= '9') || c == '_' || c
        == '-' || c == ':' || c == '.' || c == '$'
}

/// Executable mirror of `is_name_char`.
pub fn name_char(c: char) -> (r: bool)
    ensures
        r == is_name_char(c),
{
    ('a' <= c && c <= 'z') || ('A' <= c && c <= 'Z') || ('0' <= c && c <= '9') || c == '_' || c
        == '-' || c == ':' || c == '.' || c == '$'
}

/// Index of the first character at or after `from` that is not a name
/// character.
pub open spec fn scan_name_end(s: Seq<char>, from: int) -> int
    decreases s.len() - from,
{
    if from < 0 || from >= s.len() {
        s.len() as int
    } else if is_name_char(s[from]) {
        scan_name_end(s, from + 1)
    } else {
        from
    }
}

/// The decoded character of an entity reference starting at `p` (just
/// after the `&`), with the index past its `;`.
pub open spec fn sp_entity(s: Seq<char>, p: int) -> Option<(char, int)> {
    if match_at(s, seq!['l', 't', ';'], p) {
        Some(('<', p + 3))
    } else if match_at(s, seq!['g', 't', ';'], p) {
        Some(('>', p + 3))
    } else if match_at(s, seq!['a', 'm', 'p', ';'], p) {
        Some(('&', p + 4))
    } else if match_at(s, seq!['q', 'u', 'o', 't', ';'], p) {
        Some(('"', p + 5))
    } else if match_at(s, seq!['a', 'p', 'o', 's', ';'], p) {
        Some(('\'', p + 5))
    } else {
        None
    }
}

/// Clamp used to make the grammar's recursion well-founded; the parser's
/// returned positions always lie in `(lo, hi]`, so it never changes a value.
pub open spec fn bump(q: int, lo: int, hi: int) -> int {
    if q <= lo {
        lo + 1
    } else if q <= hi {
        q
    } else {
        hi + 1
    }
}

/// A quoted attribute value read from `p` up to the closing `quote`;
/// yields the decoded value and the index past the quote.
pub open spec fn sp_quoted(s: Seq<char>, p: int, quote: char) -> Option<(Seq<char>, int)>
    decreases s.len() - p + 1, 0int,
{
    if p < 0 || p >= s.len() {
        None
    } else if s[p] == quote {
        Some((Seq::empty(), p + 1))
    } else if s[p] == '<' {
        None
    } else if s[p] == '&' {
        match sp_entity(s, p + 1) {
            Some((c, q)) => match sp_quoted(s, bump(q, p, s.len() as int), quote) {
                Some((rest, q2)) => Some((seq![c] + rest, q2)),
                None => None,
            },
            None => None,
        }
    } else {
        match sp_quoted(s, p + 1, quote) {
            Some((rest, q2)) => Some((seq![s[p]] + rest, q2)),
            None => None,
        }
    }
}

/// The attribute list read from `p`; stops before `/` or `>`.
pub open spec fn sp_attrs(s: Seq<char>, p: int) -> Option<(Seq<GAttr>, int)>
    decreases s.len() - p + 1, 1int,
{
    let q = skip_spaces(s, p);
    if q >= s.len() {
        None
    } else if s[q] == '/' || s[q] == '>' {
        Some((Seq::empty(), q))
    } else if is_name_char(s[q]) {
        let ne = scan_name_end(s, q);
        let name = s.subrange(q, ne);
        let q1 = skip_spaces(s, ne);
        if q1 >= s.len() || s[q1] != '=' {
            None
        } else {
            let q2 = skip_spaces(s, q1 + 1);
            if q2 >= s.len() || !(s[q2] == '"' || s[q2] == '\'') {
                None
            } else {
                match sp_quoted(s, bump(q2 + 1, p, s.len() as int), s[q2]) {
                    Some((value, q3)) => match sp_attrs(s, bump(q3, p, s.len() as int)) {
                        Some((rest, q4)) => Some((seq![GAttr { name, value }] + rest, q4)),
                        None => None,
                    },
                    None => None,
                }
            }
        }
    } else {
        None
    }
}

/// The element starting at `p` (which must hold `<`), with the index past
/// its closing tag.
pub open spec fn sp_elem(s: Seq<char>, p: int) -> Option<(GElem, int)>
    decreases s.len() - p + 1, 2int,
{
    if p < 0 || p >= s.len() || s[p] != '<' {
        None
    } else {
        let ne = scan_name_end(s, p + 1);
        if ne == p + 1 {
            None
        } else {
            let name = s.subrange(p + 1, ne);
            match sp_attrs(s, bump(ne, p, s.len() as int)) {
                Some((attrs, q)) => {
                    if q < s.len() && s[q] == '/' {
                        if q + 1 < s.len() && s[q + 1] == '>' {
                            Some(
                                (
                                    GElem { name, attrs, children: Seq::empty(), text: Seq::empty() },
                                    q + 2,
                                ),
                            )
                        } else {
                            None
                        }
                    } else if q < s.len() && s[q] == '>' {
                        match sp_content(s, bump(q + 1, p + 1, s.len() as int)) {
                            Some((children, text, q2)) => {
                                // expect "</" name ws* ">"
                                if q2 + 2 + name.len() <= s.len() && s.subrange(
                                    q2 + 2,
                                    q2 + 2 + name.len(),
                                ) == name {
                                    let q3 = skip_spaces(s, q2 + 2 + name.len());
                                    if q3 < s.len() && s[q3] == '>' {
                                        Some((GElem { name, attrs, children, text }, q3 + 1))
                                    } else {
                                        None
                                    }
                                } else {
                                    None
                                }
                            },
                            None => None,
                        }
                    } else {
                        None
                    }
                },
                None => None,
            }
        }
    }
}

/// The content of an element read from `p`: child elements and text,
/// stopping just before the `</` of the closing tag. A comment
/// (`<!--` ... `-->`) is skipped, adding nothing to either.
pub open spec fn sp_content(s: Seq<char>, p: int) -> Option<(Seq<GElem>, Seq<char>, int)>
    decreases s.len() - p + 1, 3int,
{
    if p < 0 || p >= s.len() {
        None
    } else if s[p] == '<' {
        if p + 1 < s.len() && s[p + 1] == '/' {
            Some((Seq::empty(), Seq::empty(), p))
        } else if match_at(s, seq!['!', '-', '-'], p + 1) {
            match first_match(s, seq!['-', '-', '>'], p + 4) {
                Some(e) => sp_content(s, bump(e + 3, p, s.len() as int)),
                None => None,
            }
        } else {
            match sp_elem(s, p) {
                Some((e, q)) => match sp_content(s, bump(q, p, s.len() as int)) {
                    Some((children, text, q2)) => Some((seq![e] + children, text, q2)),
                    None => None,
                },
                None => None,
            }
        }
    } else if s[p] == '&' {
        match sp_entity(s, p + 1) {
            Some((c, q)) => match sp_content(s, bump(q, p, s.len() as int)) {
                Some((children, text, q2)) => Some((children, seq![c] + text, q2)),
                None => None,
            },
            None => None,
        }
    } else {
        match sp_content(s, p + 1) {
            Some((children, text, q2)) => Some((children, seq![s[p]] + text, q2)),
            None => None,
        }
    }
}

/// Index past the run of whitespace and comments starting at `p`;
/// `None` when a comment opens and never closes.
pub open spec fn sp_skip_misc(s: Seq<char>, p: int) -> Option<int>
    decreases s.len() - p + 1,
{
    let q = skip_spaces(s, p);
    if match_at(s, seq!['<', '!', '-', '-'], q) {
        match first_match(s, seq!['-', '-', '>'], q + 4) {
            Some(e) => sp_skip_misc(s, bump(e + 3, p, s.len() as int)),
            None => None,
        }
    } else {
        Some(q)
    }
}

/// A whole document: optional leading declaration (`<?` ... `?>`), one
/// root element, and nothing but whitespace and comments around them.
pub open spec fn sp_document(s: Seq<char>) -> Option<GElem> {
    match sp_skip_misc(s, 0) {
        None => None,
        Some(p0) => {
            let pr = if p0 + 1 < s.len() && s[p0] == '<' && s[p0 + 1] == '?' {
                match first_match(s, seq!['?', '>'], p0) {
                    Some(i) => Some(i + 2),
                    None => None,
                }
            } else {
                Some(p0)
            };
            match pr {
                Some(p1) => match sp_skip_misc(s, p1) {
                    None => None,
                    Some(p2) => match sp_elem(s, p2) {
                        Some((e, q)) => match sp_skip_misc(s, q) {
                            Some(q2) => if q2 == s.len() {
                                Some(e)
                            } else {
                                None
                            },
                            None => None,
                        },
                        None => None,
                    },
                },
                None => None,
            }
        },
    }
}

/// Index of the first non-whitespace character at or after `p`.
pub fn skip_ws(v: &Vec<char>, p: usize) -> (r: usize)
    requires
        p <= v.len(),
    ensures
        r == skip_spaces(v@, p as int),
        p <= r <= v.len(),
{
    let mut i: usize = p;
    while i < v.len() && space_char(v[i])
        invariant
            p <= i <= v.len(),
            skip_spaces(v@, p as int) == skip_spaces(v@, i as int),
        decreases v.len() - i,
    {
        i = i + 1;
    }
    i
}

/// Index past the run of whitespace and comments starting at `p`.
pub fn skip_misc(v: &Vec<char>, p: usize) -> (r: Option<usize>)
    requires
        p <= v.len(),
    ensures
        match r {
            Some(q) => sp_skip_misc(v@, p as int) == Some(q as int) && p <= q <= v.len(),
            None => sp_skip_misc(v@, p as int) is None,
        },
{
    let mut cur: usize = p;
    loop
        invariant
            p <= cur <= v.len(),
            sp_skip_misc(v@, p as int) == sp_skip_misc(v@, cur as int),
        decreases v.len() - cur,
    {
        let q = skip_ws(v, cur);
        let mut open_pat: Vec<char> = Vec::new();
        open_pat.push('<');
        open_pat.push('!');
        open_pat.push('-');
        open_pat.push('-');
        proof {
            assert(open_pat@ =~= seq!['<', '!', '-', '-']);
        }
        if !crate::text::match_chars(v, &open_pat, q) {
            return Some(q);
        }
        let mut end_pat: Vec<char> = Vec::new();
        end_pat.push('-');
        end_pat.push('-');
        end_pat.push('>');
        proof {
            assert(end_pat@ =~= seq!['-', '-', '>']);
        }
        match crate::text::find_sub(v, &end_pat, q + 4) {
            Some(e) => {
                proof {
                    assert(bump(e as int + 3, cur as int, v@.len() as int) == e as int + 3);
                    assert(sp_skip_misc(v@, cur as int) == sp_skip_misc(v@, e as int + 3));
                }
                cur = e + 3;
            },
            None => {
                return None;
            },
        }
    }
}

/// Index of the first non-name character at or after `p`.
pub fn scan_name(v: &Vec<char>, p: usize) -> (r: usize)
    requires
        p <= v.len(),
    ensures
        r == scan_name_end(v@, p as int),
        p <= r <= v.len(),
        (p < v.len() && is_name_char(v@[p as int])) ==> r > p,
{
    let mut i: usize = p;
    while i < v.len() && name_char(v[i])
        invariant
            p <= i <= v.len(),
            scan_name_end(v@, p as int) == scan_name_end(v@, i as int),
            i > p || i == p,
            (p < v.len() && is_name_char(v@[p as int]) && i == p) ==> (i < v.len()
                && is_name_char(v@[i as int])),
        decreases v.len() - i,
    {
        i = i + 1;
    }
    i
}

/// Reads an entity reference at `p` (just after `&`).
pub fn scan_entity(v: &Vec<char>, p: usize) -> (r: Option<(char, usize)>)
    requires
        p <= v.len(),
    ensures
        match r {
            Some((c, q)) => sp_entity(v@, p as int) == Some((c, q as int)) && p < q <= v.len(),
            None => sp_entity(v@, p as int) is None,
        },
{
    let mut lt: Vec<char> = Vec::new();
    lt.push('l');
    lt.push(';');
    let mut pat: Vec<char> = Vec::new();
    pat.push('l');
    pat.push('t');
    pat.push(';');
    proof {
        assert(pat@ =~= seq!['l', 't', ';']);
    }
    if crate::text::match_chars(v, &pat, p) {
        return Some(('<', p + 3));
    }
    let mut pat2: Vec<char> = Vec::new();
    pat2.push('g');
    pat2.push('t');
    pat2.push(';');
    proof {
        assert(pat2@ =~= seq!['g', 't', ';']);
    }
    if crate::text::match_chars(v, &pat2, p) {
        return Some(('>', p + 3));
    }
    let mut pat3: Vec<char> = Vec::new();
    pat3.push('a');
    pat3.push('m');
    pat3.push('p');
    pat3.push(';');
    proof {
        assert(pat3@ =~= seq!['a', 'm', 'p', ';']);
    }
    if crate::text::match_chars(v, &pat3, p) {
        return Some(('&', p + 4));
    }
    let mut pat4: Vec<char> = Vec::new();
    pat4.push('q');
    pat4.push('u');
    pat4.push('o');
    pat4.push('t');
    pat4.push(';');
    proof {
        assert(pat4@ =~= seq!['q', 'u', 'o', 't', ';']);
    }
    if crate::text::match_chars(v, &pat4, p) {
        return Some(('"', p + 5));
    }
    let mut pat5: Vec<char> = Vec::new();
    pat5.push('a');
    pat5.push('p');
    pat5.push('o');
    pat5.push('s');
    pat5.push(';');
    proof {
        assert(pat5@ =~= seq!['a', 'p', 'o', 's', ';']);
    }
    if crate::text::match_chars(v, &pat5, p) {
        return Some(('\'', p + 5));
    }
    None
}

/// Reads a quoted attribute value starting at `p`, decoding entities,
/// up to the closing `quote`.
pub fn scan_quoted(v: &Vec<char>, p: usize, quote: char) -> (r: Option<(Vec<char>, usize)>)
    requires
        p <= v.len(),
    ensures
        match r {
            Some((val, q)) => sp_quoted(v@, p as int, quote) == Some((val@, q as int)) && p < q
                <= v.len(),
            None => sp_quoted(v@, p as int, quote) is None,
        },
{
    let mut acc: Vec<char> = Vec::new();
    let mut cur: usize = p;
    while cur < v.len()
        invariant
            p <= cur <= v.len(),
            ({
                let o = sp_quoted(v@, p as int, quote);
                let i = sp_quoted(v@, cur as int, quote);
                match i {
                    Some((rest, q)) => o == Some((acc@ + rest, q)),
                    None => o is None,
                }
            }),
        decreases v.len() - cur,
    {
        let c = v[cur];
        if c == quote {
            proof {
                assert(acc@ + Seq::<char>::empty() =~= acc@);
            }
            return Some((acc, cur + 1));
        } else if c == '<' {
            return None;
        } else if c == '&' {
            match scan_entity(v, cur + 1) {
                Some((d, q2)) => {
                    let ghost acc0 = acc@;
                    acc.push(d);
                    proof {
                        assert(bump(q2 as int, cur as int, v@.len() as int) == q2 as int);
                        if let Some((rest, q)) = sp_quoted(v@, q2 as int, quote) {
                            assert(acc0 + (seq![d] + rest) =~= acc@ + rest);
                        }
                    }
                    cur = q2;
                },
                None => {
                    return None;
                },
            }
        } else {
            let ghost acc0 = acc@;
            acc.push(c);
            proof {
                if let Some((rest, q)) = sp_quoted(v@, cur as int + 1, quote) {
                    assert(acc0 + (seq![c] + rest) =~= acc@ + rest);
                }
            }
            cur = cur + 1;
        }
    }
    None
}

/// Reads the attribute list starting at `p`.
pub fn parse_attrs(v: &Vec<char>, p: usize) -> (r: Option<(Vec<XmlAttr>, usize)>)
    requires
        p <= v.len(),
    ensures
        match r {
            Some((attrs, q)) => sp_attrs(v@, p as int) == Some(
                (attrs@.map_values(|a: XmlAttr| a@), q as int),
            ) && p <= q < v.len() && (v@[q as int] == '/' || v@[q as int] == '>'),
            None => sp_attrs(v@, p as int) is None,
        },
{
    let mut acc: Vec<XmlAttr> = Vec::new();
    let mut cur: usize = p;
    loop
        invariant
            p <= cur <= v.len(),
            ({
                let o = sp_attrs(v@, p as int);
                let i = sp_attrs(v@, cur as int);
                match i {
                    Some((rest, q)) => o == Some((acc@.map_values(|a: XmlAttr| a@) + rest, q)),
                    None => o is None,
                }
            }),
        decreases v.len() - cur,
    {
        let q = skip_ws(v, cur);
        if q >= v.len() {
            return None;
        }
        let c = v[q];
        if c == '/' || c == '>' {
            proof {
                assert(acc@.map_values(|a: XmlAttr| a@) + Seq::<GAttr>::empty()
                    =~= acc@.map_values(|a: XmlAttr| a@));
            }
            return Some((acc, q));
        }
        if !name_char(c) {
            return None;
        }
        let ne = scan_name(v, q);
        let name_chars = crate::text::slice_chars(v, q, ne);
        let q1 = skip_ws(v, ne);
        if q1 >= v.len() || v[q1] != '=' {
            return None;
        }
        let q2 = skip_ws(v, q1 + 1);
        if q2 >= v.len() {
            return None;
        }
        let quote = v[q2];
        if !(quote == '"' || quote == '\'') {
            return None;
        }
        proof {
            assert(bump(q2 as int + 1, cur as int, v@.len() as int) == q2 as int + 1);
        }
        match scan_quoted(v, q2 + 1, quote) {
            Some((val, q3)) => {
                let a = XmlAttr {
                    name: chars_to_string(&name_chars),
                    value: chars_to_string(&val),
                };
                let ghost acc0 = acc@.map_values(|a: XmlAttr| a@);
                let ghost ga = GAttr { name: v@.subrange(q as int, ne as int), value: val@ };
                proof {
                    assert(a@ == ga);
                    assert(bump(q3 as int, cur as int, v@.len() as int) == q3 as int);
                }
                acc.push(a);
                proof {
                    assert(acc@.map_values(|x: XmlAttr| x@) =~= acc0.push(ga));
                    if let Some((rest, qq)) = sp_attrs(v@, q3 as int) {
                        assert(acc0 + (seq![ga] + rest) =~= acc0.push(ga) + rest);
                    }
                }
                cur = q3;
            },
            None => {
                return None;
            },
        }
    }
}

/// Reads one element starting at `p` (which must hold `<`).
pub fn parse_elem(v: &Vec<char>, p: usize) -> (r: Option<(XmlElem, usize)>)
    requires
        p <= v.len(),
    ensures
        match r {
            Some((e, q)) => sp_elem(v@, p as int) == Some((e@, q as int)) && p < q <= v.len(),
            None => sp_elem(v@, p as int) is None,
        },
    decreases v.len() - p, 1int,
{
    if p >= v.len() || v[p] != '<' {
        return None;
    }
    if p + 1 > v.len() {
        return None;
    }
    let ne = scan_name(v, p + 1);
    if ne == p + 1 {
        return None;
    }
    let name_chars = crate::text::slice_chars(v, p + 1, ne);
    proof {
        assert(bump(ne as int, p as int, v@.len() as int) == ne as int);
    }
    let attrs_r = parse_attrs(v, ne);
    match attrs_r {
        Some((attrs, q)) => {
            let ghost gattrs = attrs@.map_values(|a: XmlAttr| a@);
            if v[q] == '/' {
                if q + 1 < v.len() && v[q + 1] == '>' {
                    let e = XmlElem {
                        name: chars_to_string(&name_chars),
                        attrs,
                        children: Vec::new(),
                        text: String::new(),
                    };
                    proof {
                        assert(e.children@ =~= Seq::<XmlElem>::empty());
                        assert(e@.children =~= Seq::<GElem>::empty());
                        assert(e@.attrs =~= gattrs);
                        assert(e@ == GElem {
                            name: v@.subrange(p as int + 1, ne as int),
                            attrs: gattrs,
                            children: Seq::empty(),
                            text: Seq::empty(),
                        });
                    }
                    return Some((e, q + 2));
                } else {
                    return None;
                }
            }
            // v[q] == '>'
            proof {
                assert(bump(q as int + 1, p as int + 1, v@.len() as int) == q as int + 1);
            }
            match parse_content(v, q + 1) {
                Some((children, text, q2)) => {
                    // expect "</" name ws* ">"
                    if v.len() - q2 < 2 {
                        return None;
                    }
                    if !crate::text::match_chars(v, &name_chars, q2 + 2) {
                        return None;
                    }
                    let q3 = skip_ws(v, q2 + 2 + name_chars.len());
                    if q3 < v.len() && v[q3] == '>' {
                        let e = XmlElem {
                            name: chars_to_string(&name_chars),
                            attrs,
                            children,
                            text: chars_to_string(&text),
                        };
                        proof {
                            assert(e@.attrs =~= gattrs);
                            assert(e@ == GElem {
                                name: v@.subrange(p as int + 1, ne as int),
                                attrs: gattrs,
                                children: gelems_of(children@),
                                text: text@,
                            });
                        }
                        return Some((e, q3 + 1));
                    } else {
                        return None;
                    }
                },
                None => {
                    return None;
                },
            }
        },
        None => {
            return None;
        },
    }
}

/// Reads element content (children and text) starting at `p`, stopping
/// just before the closing tag's `</`.
pub fn parse_content(v: &Vec<char>, p: usize) -> (r: Option<(Vec<XmlElem>, Vec<char>, usize)>)
    requires
        p <= v.len(),
    ensures
        match r {
            Some((children, text, q)) => sp_content(v@, p as int) == Some(
                (gelems_of(children@), text@, q as int),
            ) && p <= q <= v.len(),
            None => sp_content(v@, p as int) is None,
        },
    decreases v.len() - p, 2int,
{
    let mut children: Vec<XmlElem> = Vec::new();
    let mut text: Vec<char> = Vec::new();
    let mut cur: usize = p;
    while cur < v.len()
        invariant
            p <= cur <= v.len(),
            ({
                let o = sp_content(v@, p as int);
                let i = sp_content(v@, cur as int);
                match i {
                    Some((ch, tx, q)) => o == Some((gelems_of(children@) + ch, text@ + tx, q)),
                    None => o is None,
                }
            }),
        decreases v.len() - cur, 0int,
    {
        let c = v[cur];
        if c == '<' {
            if cur + 1 < v.len() && v[cur + 1] == '/' {
                proof {
                    assert(gelems_of(children@) + Seq::<GElem>::empty() =~= gelems_of(children@));
                    assert(text@ + Seq::<char>::empty() =~= text@);
                }
                return Some((children, text, cur));
            }
            let mut bang_pat: Vec<char> = Vec::new();
            bang_pat.push('!');
            bang_pat.push('-');
            bang_pat.push('-');
            proof {
                assert(bang_pat@ =~= seq!['!', '-', '-']);
            }
            if crate::text::match_chars(v, &bang_pat, cur + 1) {
                // a comment: skip past its closing `-->`
                let mut end_pat: Vec<char> = Vec::new();
                end_pat.push('-');
                end_pat.push('-');
                end_pat.push('>');
                proof {
                    assert(end_pat@ =~= seq!['-', '-', '>']);
                }
                match crate::text::find_sub(v, &end_pat, cur + 4) {
                    Some(e) => {
                        proof {
                            assert(bump(e as int + 3, cur as int, v@.len() as int) == e as int
                                + 3);
                            assert(sp_content(v@, cur as int) == sp_content(v@, e as int + 3));
                        }
                        cur = e + 3;
                    },
                    None => {
                        return None;
                    },
                }
            } else {
                match parse_elem(v, cur) {
                    Some((e, q)) => {
                        let ghost ch0 = children@;
                        let ghost ge = e@;
                        children.push(e);
                        proof {
                            assert(bump(q as int, cur as int, v@.len() as int) == q as int);
                            assert(children@.drop_last() =~= ch0);
                            assert(gelems_of(children@) == gelems_of(ch0).push(ge));
                            if let Some((ch, tx, qq)) = sp_content(v@, q as int) {
                                assert(gelems_of(ch0) + (seq![ge] + ch) =~= gelems_of(ch0).push(
                                    ge,
                                ) + ch);
                            }
                        }
                        cur = q;
                    },
                    None => {
                        return None;
                    },
                }
            }
        } else if c == '&' {
            match scan_entity(v, cur + 1) {
                Some((d, q2)) => {
                    let ghost tx0 = text@;
                    text.push(d);
                    proof {
                        assert(bump(q2 as int, cur as int, v@.len() as int) == q2 as int);
                        if let Some((ch, tx, qq)) = sp_content(v@, q2 as int) {
                            assert(tx0 + (seq![d] + tx) =~= text@ + tx);
                        }
                    }
                    cur = q2;
                },
                None => {
                    return None;
                },
            }
        } else {
            let ghost tx0 = text@;
            text.push(c);
            proof {
                if let Some((ch, tx, qq)) = sp_content(v@, cur as int + 1) {
                    assert(tx0 + (seq![c] + tx) =~= text@ + tx);
                }
            }
            cur = cur + 1;
        }
    }
    None
}

/// Parses one whole document: optional leading declaration, one root
/// element, and only whitespace and comments around them. Returns the
/// root element exactly when the grammar `sp_document` accepts the
/// text.
pub fn parse_document(s: &str) -> (r: Option<XmlElem>)
    ensures
        match r {
            Some(e) => sp_document(s@) == Some(e@),
            None => sp_document(s@) is None,
        },
{
    let v = crate::text::str_chars(s);
    let p0 = match skip_misc(&v, 0) {
        Some(q) => q,
        None => {
            return None;
        },
    };
    let p1: usize;
    if v.len() - p0 > 1 && v[p0] == '<' && v[p0 + 1] == '?' {
        let mut pat: Vec<char> = Vec::new();
        pat.push('?');
        pat.push('>');
        proof {
            assert(pat@ =~= seq!['?', '>']);
        }
        match crate::text::find_sub(&v, &pat, p0) {
            Some(i) => {
                p1 = i + 2;
            },
            None => {
                return None;
            },
        }
    } else {
        p1 = p0;
    }
    let p2 = match skip_misc(&v, p1) {
        Some(q) => q,
        None => {
            return None;
        },
    };
    match parse_elem(&v, p2) {
        Some((e, q)) => {
            match skip_misc(&v, q) {
                Some(q2) => {
                    if q2 == v.len() {
                        Some(e)
                    } else {
                        None
                    }
                },
                None => None,
            }
        },
        None => None,
    }
}

} // verus!
