//! The markup extension transform. A document is tokenized (see `lex`) and
//! folded into a `Definition`: reserved-namespace constructs (prefix "web")
//! are intercepted — link attributes become entries of the link map (with a
//! deterministic autogenerated id when the element has none), script and
//! style elements collect their body text, the page element sets the title —
//! and everything else passes through verbatim into the clean markup.
//!
//! The whole transform is given by spec functions (`spec_parse`,
//! `spec_step`); `Definition::new` is proved to return exactly that.

use vstd::prelude::*;
use crate::lex::{Attr, AttrModel, TagKind, Token, TokenModel, spec_lex, lex};
use crate::script::{Lang, Script};
use crate::text::{sub_at, autogen_id, push_digits, chars_of, string_from_chars,
    push_range, is_digit_char, is_scalar, char_from_u32};
use crate::error::Error;

verus! {

// ---------------------------------------------------------------------------
// Reserved names
// ---------------------------------------------------------------------------
/// The reserved namespace prefix, with its separating colon.
pub open spec fn reserved_prefix() -> Seq<char> {
    seq!['w', 'e', 'b', ':']
}

/// Whether a tag or attribute name lies in the reserved namespace.
pub open spec fn is_reserved(name: Seq<char>) -> bool {
    name.len() >= 4 && name.subrange(0, 4) == reserved_prefix()
}

/// The local part of a reserved name (what follows the prefix).
pub open spec fn local_of(name: Seq<char>) -> Seq<char> {
    name.skip(4)
}

pub open spec fn script_local() -> Seq<char> {
    seq!['s', 'c', 'r', 'i', 'p', 't']
}

pub open spec fn style_local() -> Seq<char> {
    seq!['s', 't', 'y', 'l', 'e']
}

pub open spec fn page_local() -> Seq<char> {
    seq!['p', 'a', 'g', 'e']
}

pub open spec fn href_local() -> Seq<char> {
    seq!['h', 'r', 'e', 'f']
}

pub open spec fn type_attr() -> Seq<char> {
    seq!['t', 'y', 'p', 'e']
}

pub open spec fn title_attr() -> Seq<char> {
    seq!['t', 'i', 't', 'l', 'e']
}

pub open spec fn id_attr() -> Seq<char> {
    seq!['i', 'd']
}

pub open spec fn class_attr() -> Seq<char> {
    seq!['c', 'l', 'a', 's', 's']
}

pub open spec fn lua_name() -> Seq<char> {
    seq!['l', 'u', 'a']
}

/// The value of the attribute named `key`; on repeated keys the last wins.
pub open spec fn attr_of(attrs: Seq<AttrModel>, key: Seq<char>) -> Option<Seq<char>>
    decreases attrs.len(),
{
    if attrs.len() == 0 {
        None
    } else if attrs.last().key == key {
        Some(attrs.last().value)
    } else {
        attr_of(attrs.drop_last(), key)
    }
}

// ---------------------------------------------------------------------------
// Character references
// ---------------------------------------------------------------------------
pub open spec fn cons_ok(c: char, r: Result<Seq<char>, ()>) -> Result<Seq<char>, ()> {
    match r {
        Ok(t) => Ok(seq![c] + t),
        Err(()) => Err(()),
    }
}

pub open spec fn is_hex_digit(c: char) -> bool {
    is_digit_char(c) || ('a' as int <= c as int <= 'f' as int) || ('A' as int <= c as int
        <= 'F' as int)
}

pub open spec fn ref_digit_ok(c: char, hex: bool) -> bool {
    if hex {
        is_hex_digit(c)
    } else {
        is_digit_char(c)
    }
}

/// The numeric value of one reference digit.
pub open spec fn ref_digit_val(c: char, hex: bool) -> int {
    if is_digit_char(c) {
        c as int - '0' as int
    } else if 'a' as int <= c as int <= 'f' as int {
        c as int - 'a' as int + 10
    } else {
        c as int - 'A' as int + 10
    }
}

pub open spec fn all_ref_digits(s: Seq<char>, a: int, b: int, hex: bool) -> bool {
    forall|k: int| a <= k < b ==> ref_digit_ok(#[trigger] s[k], hex)
}

/// The value of the digit run `s[a..b]`, most significant digit first.
pub open spec fn ref_value(s: Seq<char>, a: int, b: int, hex: bool) -> int
    decreases b - a,
    when a <= b
{
    if b <= a {
        0
    } else {
        ref_value(s, a, b - 1, hex) * (if hex {
            16int
        } else {
            10int
        }) + ref_digit_val(s[b - 1], hex)
    }
}

/// Replaces character references: the five named ones, and numeric ones
/// (`&#N;` decimal, `&#xN;` hex with a lowercase x) whose value is a Unicode
/// scalar. Anything else after '&' is malformed.
pub open spec fn unescape_from(s: Seq<char>, i: int) -> Result<Seq<char>, ()>
    decreases s.len() - i,
    when 0 <= i <= s.len()
    via unescape_from_decreases
{
    if i == s.len() {
        Ok(Seq::empty())
    } else if s[i] == '&' {
        if sub_at(s, seq!['&', 'l', 't', ';'], i) {
            cons_ok('<', unescape_from(s, i + 4))
        } else if sub_at(s, seq!['&', 'g', 't', ';'], i) {
            cons_ok('>', unescape_from(s, i + 4))
        } else if sub_at(s, seq!['&', 'a', 'm', 'p', ';'], i) {
            cons_ok('&', unescape_from(s, i + 5))
        } else if sub_at(s, seq!['&', 'a', 'p', 'o', 's', ';'], i) {
            cons_ok('\'', unescape_from(s, i + 6))
        } else if sub_at(s, seq!['&', 'q', 'u', 'o', 't', ';'], i) {
            cons_ok('"', unescape_from(s, i + 6))
        } else if sub_at(s, seq!['&', '#'], i) {
            let hex = i + 2 < s.len() && s[i + 2] == 'x';
            let start = if hex {
                i + 3
            } else {
                i + 2
            };
            let j = crate::lex::scan_to_char(s, start, ';');
            if j == s.len() || j == start {
                Err(())
            } else if !all_ref_digits(s, start, j, hex) {
                Err(())
            } else if !is_scalar(ref_value(s, start, j, hex)) {
                Err(())
            } else {
                cons_ok(ref_value(s, start, j, hex) as char, unescape_from(s, j + 1))
            }
        } else {
            Err(())
        }
    } else {
        cons_ok(s[i], unescape_from(s, i + 1))
    }
}

#[via_fn]
proof fn unescape_from_decreases(s: Seq<char>, i: int) {
    if i < s.len() && s[i] == '&' && sub_at(s, seq!['&', '#'], i) {
        let hex = i + 2 < s.len() && s[i + 2] == 'x';
        let start = if hex {
            i + 3
        } else {
            i + 2
        };
        crate::lex::lemma_scan_to_char(s, start, ';');
    }
}

pub open spec fn spec_unescape(s: Seq<char>) -> Result<Seq<char>, ()> {
    unescape_from(s, 0)
}

// ---------------------------------------------------------------------------
// Autogenerated ids
// ---------------------------------------------------------------------------
/// The per-class counter so far; zero for a class never seen.
pub open spec fn counter_of(cs: Seq<(Seq<char>, u64)>, class: Seq<char>) -> u64
    decreases cs.len(),
{
    if cs.len() == 0 {
        0
    } else if cs[0].0 == class {
        cs[0].1
    } else {
        counter_of(cs.drop_first(), class)
    }
}

/// Increments the counter of `class`, creating it at one if absent.
pub open spec fn bump(cs: Seq<(Seq<char>, u64)>, class: Seq<char>) -> Seq<(Seq<char>, u64)>
    decreases cs.len(),
{
    if cs.len() == 0 {
        seq![(class, 1u64)]
    } else if cs[0].0 == class {
        seq![(cs[0].0, (cs[0].1 + 1) as u64)] + cs.drop_first()
    } else {
        seq![cs[0]] + bump(cs.drop_first(), class)
    }
}

/// Law: autogenerated ids are deterministic — each use advances exactly the
/// used class's counter by one and leaves every other class's counter alone,
/// so the n-th unlabeled element of a class is always named with counter n.
pub proof fn lemma_bump_counter(cs: Seq<(Seq<char>, u64)>, class: Seq<char>, other: Seq<char>)
    requires
        counter_of(cs, class) < u64::MAX,
    ensures
        counter_of(bump(cs, class), class) == counter_of(cs, class) + 1,
        other != class ==> counter_of(bump(cs, class), other) == counter_of(cs, other),
    decreases cs.len(),
{
    if cs.len() == 0 {
        let b = bump(cs, class);
        assert(b =~= seq![(class, 1u64)]);
        assert(b[0].0 == class && b[0].1 == 1);
        assert(b.drop_first() =~= Seq::<(Seq<char>, u64)>::empty());
        if other != class {
            assert(counter_of(b, other) == counter_of(b.drop_first(), other));
            assert(counter_of(b.drop_first(), other) == 0);
        }
    } else if cs[0].0 == class {
        let b = bump(cs, class);
        assert(b[0] == (cs[0].0, (cs[0].1 + 1) as u64));
        assert(b.drop_first() =~= cs.drop_first());
        if other != class {
            assert(counter_of(b, other) == counter_of(cs.drop_first(), other));
            assert(counter_of(cs, other) == counter_of(cs.drop_first(), other));
        }
    } else {
        lemma_bump_counter(cs.drop_first(), class, other);
        let b = bump(cs, class);
        assert(b[0] == cs[0]);
        assert(b.drop_first() =~= bump(cs.drop_first(), class));
        assert(counter_of(b, class) == counter_of(b.drop_first(), class));
        if other != class {
            if cs[0].0 == other {
                assert(counter_of(b, other) == b[0].1);
                assert(counter_of(cs, other) == cs[0].1);
            } else {
                assert(counter_of(b, other) == counter_of(b.drop_first(), other));
                assert(counter_of(cs, other) == counter_of(cs.drop_first(), other));
            }
        }
    }
}

/// Deterministic id generator: the n-th unlabeled element of a class is named
/// `{class}-{n}`, counting per class from one.
pub struct IdAutogenerator {
    entries: Vec<(String, u64)>,
}

impl IdAutogenerator {
    /// The classes seen so far with their counters, in first-seen order.
    pub closed spec fn counters(&self) -> Seq<(Seq<char>, u64)> {
        Seq::new(self.entries@.len(), |i: int| (self.entries@[i].0@, self.entries@[i].1))
    }

    pub fn new() -> (r: IdAutogenerator)
        ensures
            r.counters() == Seq::<(Seq<char>, u64)>::empty(),
    {
        let r = IdAutogenerator { entries: Vec::new() };
        proof {
            assert(r.counters() =~= Seq::<(Seq<char>, u64)>::empty());
        }
        r
    }

    /// The counter of `class` so far.
    pub fn count(&self, class: &String) -> (r: u64)
        ensures
            r == counter_of(self.counters(), class@),
    {
        let n = self.entries.len();
        let mut i: usize = 0;
        proof {
            assert(self.counters().skip(0) =~= self.counters());
        }
        while i < n
            invariant
                0 <= i <= n,
                n == self.entries@.len(),
                counter_of(self.counters(), class@) == counter_of(
                    self.counters().skip(i as int),
                    class@,
                ),
            decreases n - i,
        {
            proof {
                assert(self.counters().skip(i as int)[0] == (
                    self.entries@[i as int].0@,
                    self.entries@[i as int].1,
                ));
            }
            if self.entries[i].0 == *class {
                return self.entries[i].1;
            }
            proof {
                assert(self.counters().skip(i as int).drop_first() =~= self.counters().skip(
                    i + 1,
                ));
            }
            i += 1;
        }
        proof {
            assert(self.counters().skip(n as int).len() == 0);
        }
        0
    }

    /// Yields the next id for `class` and advances its counter.
    pub fn next(&mut self, class: &String) -> (id: String)
        requires
            counter_of(old(self).counters(), class@) < u64::MAX,
        ensures
            final(self).counters() == bump(old(self).counters(), class@),
            id@ == autogen_id(class@, (counter_of(old(self).counters(), class@) + 1) as nat),
    {
        let n = self.entries.len();
        let mut i: usize = 0;
        proof {
            assert(self.counters().skip(0) =~= self.counters());
            assert(self.counters().take(0) =~= Seq::<(Seq<char>, u64)>::empty());
            assert(Seq::<(Seq<char>, u64)>::empty() + bump(self.counters(), class@) =~= bump(
                self.counters(),
                class@,
            ));
        }
        while i < n
            invariant
                0 <= i <= n,
                n == self.entries@.len(),
                *self == *old(self),
                counter_of(self.counters(), class@) < u64::MAX,
                counter_of(self.counters(), class@) == counter_of(
                    self.counters().skip(i as int),
                    class@,
                ),
                forall|j: int| 0 <= j < i ==> self.counters()[j].0 != class@,
                bump(self.counters(), class@) == self.counters().take(i as int) + bump(
                    self.counters().skip(i as int),
                    class@,
                ),
            decreases n - i,
        {
            proof {
                assert(self.counters().skip(i as int)[0] == (
                    self.entries@[i as int].0@,
                    self.entries@[i as int].1,
                ));
            }
            if self.entries[i].0 == *class {
                let c = self.entries[i].1;
                proof {
                    assert(counter_of(self.counters().skip(i as int), class@) == c);
                }
                self.entries[i].1 = c + 1;
                let mut id: Vec<char> = chars_of(class.as_str());
                id.push('-');
                push_digits(c + 1, &mut id);
                proof {
                    assert(id@ =~= autogen_id(class@, (c + 1) as nat));
                    let oldc = old(self).counters();
                    assert(self.counters() =~= oldc.update(
                        i as int,
                        (class@, (c + 1) as u64),
                    ));
                    assert(bump(oldc.skip(i as int), class@) =~= seq![
                        (class@, (c + 1) as u64),
                    ] + oldc.skip(i + 1));
                    assert(oldc.take(i as int) + (seq![(class@, (c + 1) as u64)] + oldc.skip(
                        i + 1,
                    )) =~= oldc.update(i as int, (class@, (c + 1) as u64)));
                }
                return string_from_chars(id.as_slice());
            }
            proof {
                assert(self.counters().skip(i as int).drop_first() =~= self.counters().skip(
                    i + 1,
                ));
                assert(self.counters().take(i as int).push(self.counters()[i as int])
                    =~= self.counters().take(i + 1));
                assert(self.counters().take(i as int) + (seq![self.counters()[i as int]] + bump(
                    self.counters().skip(i + 1),
                    class@,
                )) =~= self.counters().take(i + 1) + bump(self.counters().skip(i + 1), class@));
            }
            i += 1;
        }
        let mut id: Vec<char> = chars_of(class.as_str());
        id.push('-');
        push_digits(1, &mut id);
        let ghost oldc = old(self).counters();
        self.entries.push((class.clone(), 1));
        proof {
            assert(counter_of(oldc.skip(n as int), class@) == 0);
            assert(id@ =~= autogen_id(class@, 1nat));
            assert(bump(oldc.skip(n as int), class@) =~= seq![(class@, 1u64)]);
            assert(self.counters() =~= oldc.push((class@, 1u64)));
            assert(oldc.take(n as int) + seq![(class@, 1u64)] =~= oldc.push((class@, 1u64)));
        }
        string_from_chars(id.as_slice())
    }
}

// ---------------------------------------------------------------------------
// Attribute trimming
// ---------------------------------------------------------------------------
/// Outcome of trimming one element's attribute list.
pub ghost struct TrimOut {
    /// The attributes written out, in order.
    pub kept: Seq<AttrModel>,
    /// Link registrations contributed by this element, in order.
    pub hrefs: Seq<(Seq<char>, Seq<char>)>,
    /// The id counters after this element.
    pub counters: Seq<(Seq<char>, u64)>,
    /// Whether any reserved attribute was seen (the element must then be
    /// re-rendered rather than copied).
    pub touched: bool,
}

/// Processes an element's attributes in order. A reserved `href` attribute
/// registers a link under the element's `id`, or under a fresh autogenerated
/// id derived from its `class` (the id is then written into the element);
/// with neither `id` nor `class` (or an exhausted counter) the link is
/// dropped. Any other reserved attribute is dropped. `all` is the element's
/// complete attribute list, where `id` and `class` are looked up.
pub open spec fn trim_attrs(
    attrs: Seq<AttrModel>,
    all: Seq<AttrModel>,
    counters: Seq<(Seq<char>, u64)>,
) -> TrimOut
    decreases attrs.len(),
{
    if attrs.len() == 0 {
        TrimOut { kept: Seq::empty(), hrefs: Seq::empty(), counters, touched: false }
    } else {
        let a = attrs[0];
        if !is_reserved(a.key) {
            let rest = trim_attrs(attrs.drop_first(), all, counters);
            TrimOut {
                kept: seq![a] + rest.kept,
                hrefs: rest.hrefs,
                counters: rest.counters,
                touched: rest.touched,
            }
        } else if local_of(a.key) == href_local() {
            match attr_of(all, id_attr()) {
                Some(id) => {
                    let rest = trim_attrs(attrs.drop_first(), all, counters);
                    TrimOut {
                        kept: rest.kept,
                        hrefs: seq![(id, a.value)] + rest.hrefs,
                        counters: rest.counters,
                        touched: true,
                    }
                },
                None => match attr_of(all, class_attr()) {
                    Some(class) => {
                        if counter_of(counters, class) < u64::MAX {
                            let id = autogen_id(
                                class,
                                (counter_of(counters, class) + 1) as nat,
                            );
                            let rest = trim_attrs(attrs.drop_first(), all, bump(counters, class));
                            TrimOut {
                                kept: seq![AttrModel { key: id_attr(), value: id }] + rest.kept,
                                hrefs: seq![(id, a.value)] + rest.hrefs,
                                counters: rest.counters,
                                touched: true,
                            }
                        } else {
                            let rest = trim_attrs(attrs.drop_first(), all, counters);
                            TrimOut {
                                kept: rest.kept,
                                hrefs: rest.hrefs,
                                counters: rest.counters,
                                touched: true,
                            }
                        }
                    },
                    None => {
                        let rest = trim_attrs(attrs.drop_first(), all, counters);
                        TrimOut {
                            kept: rest.kept,
                            hrefs: rest.hrefs,
                            counters: rest.counters,
                            touched: true,
                        }
                    },
                },
            }
        } else {
            let rest = trim_attrs(attrs.drop_first(), all, counters);
            TrimOut {
                kept: rest.kept,
                hrefs: rest.hrefs,
                counters: rest.counters,
                touched: true,
            }
        }
    }
}

// ---------------------------------------------------------------------------
// Rendering of rebuilt tags
// ---------------------------------------------------------------------------
/// One rendered attribute: a space, the key, '="', the value, '"'.
pub open spec fn render_attr(a: AttrModel) -> Seq<char> {
    seq![' '] + a.key + seq!['=', '"'] + a.value + seq!['"']
}

pub open spec fn render_attrs(attrs: Seq<AttrModel>) -> Seq<char>
    decreases attrs.len(),
{
    if attrs.len() == 0 {
        Seq::empty()
    } else {
        render_attrs(attrs.drop_last()) + render_attr(attrs.last())
    }
}

/// A rebuilt tag, normalized: name and attributes with double quotes, and
/// "/>" for a self-closing element.
pub open spec fn render_tag(name: Seq<char>, attrs: Seq<AttrModel>, kind: TagKind) -> Seq<char> {
    if kind == TagKind::Empty {
        seq!['<'] + name + render_attrs(attrs) + seq!['/', '>']
    } else {
        seq!['<'] + name + render_attrs(attrs) + seq!['>']
    }
}

// ---------------------------------------------------------------------------
// The document fold
// ---------------------------------------------------------------------------
/// What the transform does with text while inside a reserved script element:
/// collect it for a recognized language, or discard it whole when the
/// element's type is missing or unrecognized (the element is skipped).
#[derive(Copy, Clone, Debug, PartialEq, Eq, Structural)]
pub enum ScriptMode {
    /// Not inside a script element.
    Off,
    /// Collecting the body of a script in this language.
    Collecting(Lang),
    /// Inside a skipped script element: its body is discarded.
    Skipping,
}

/// The transform state: the document pieces collected so far, and whether a
/// script or style body is currently being read.
pub ghost struct DocAcc {
    pub clean: Seq<char>,
    pub hrefs: Seq<(Seq<char>, Seq<char>)>,
    pub scripts: Seq<(Lang, Seq<char>)>,
    pub styles: Seq<char>,
    pub title: Option<Seq<char>>,
    pub counters: Seq<(Seq<char>, u64)>,
    pub script_mode: ScriptMode,
    pub current_script: Seq<char>,
    pub reading_style: bool,
}

pub open spec fn init_acc() -> DocAcc {
    DocAcc {
        clean: Seq::empty(),
        hrefs: Seq::empty(),
        scripts: Seq::empty(),
        styles: Seq::empty(),
        title: None,
        counters: Seq::empty(),
        script_mode: ScriptMode::Off,
        current_script: Seq::empty(),
        reading_style: false,
    }
}

/// How one token advances the transform. Text is collected into the script
/// being read, discarded inside a skipped script, collected into the style
/// being read, or passed through. Reserved-named tags never reach the clean
/// markup: the script, style and page elements have their defined effects,
/// and any other reserved-named element is dropped. A non-reserved tag has
/// its attributes trimmed; one no reserved attribute touched is copied
/// through verbatim, character for character.
pub open spec fn spec_step(acc: DocAcc, t: TokenModel) -> Result<DocAcc, ()> {
    match t {
        TokenModel::Text { raw } => {
            if acc.script_mode is Collecting {
                match spec_unescape(raw) {
                    Ok(u) => Ok(DocAcc { current_script: acc.current_script + u, ..acc }),
                    Err(()) => Err(()),
                }
            } else if acc.script_mode is Skipping {
                Ok(acc)
            } else if acc.reading_style {
                match spec_unescape(raw) {
                    Ok(u) => Ok(DocAcc { styles: acc.styles + u, ..acc }),
                    Err(()) => Err(()),
                }
            } else {
                Ok(DocAcc { clean: acc.clean + raw, ..acc })
            }
        },
        TokenModel::Other { raw } => Ok(DocAcc { clean: acc.clean + raw, ..acc }),
        TokenModel::Tag { raw, name, attrs, kind } => {
            if is_reserved(name) {
                match kind {
                    TagKind::Start => {
                        if local_of(name) == script_local() {
                            match attr_of(attrs, type_attr()) {
                                Some(t) => if t == lua_name() {
                                    Ok(
                                        DocAcc {
                                            script_mode: ScriptMode::Collecting(Lang::Lua),
                                            current_script: Seq::empty(),
                                            ..acc
                                        },
                                    )
                                } else {
                                    Ok(DocAcc { script_mode: ScriptMode::Skipping, ..acc })
                                },
                                None => Ok(DocAcc { script_mode: ScriptMode::Skipping, ..acc }),
                            }
                        } else if local_of(name) == style_local() {
                            Ok(DocAcc { reading_style: true, ..acc })
                        } else {
                            Ok(acc)
                        }
                    },
                    TagKind::Empty => {
                        if local_of(name) == page_local() {
                            match attr_of(attrs, title_attr()) {
                                Some(v) => Ok(DocAcc { title: Some(v), ..acc }),
                                None => Ok(acc),
                            }
                        } else {
                            Ok(acc)
                        }
                    },
                    TagKind::End => {
                        if local_of(name) == script_local() {
                            match acc.script_mode {
                                ScriptMode::Collecting(lang) => Ok(
                                    DocAcc {
                                        scripts: acc.scripts.push((lang, acc.current_script)),
                                        script_mode: ScriptMode::Off,
                                        ..acc
                                    },
                                ),
                                ScriptMode::Skipping => Ok(
                                    DocAcc { script_mode: ScriptMode::Off, ..acc },
                                ),
                                ScriptMode::Off => Ok(acc),
                            }
                        } else if local_of(name) == style_local() {
                            Ok(DocAcc { reading_style: false, ..acc })
                        } else {
                            Ok(acc)
                        }
                    },
                }
            } else if kind == TagKind::End {
                Ok(DocAcc { clean: acc.clean + raw, ..acc })
            } else {
                let tr = trim_attrs(attrs, attrs, acc.counters);
                if tr.touched {
                    Ok(
                        DocAcc {
                            clean: acc.clean + render_tag(name, tr.kept, kind),
                            hrefs: acc.hrefs + tr.hrefs,
                            counters: tr.counters,
                            ..acc
                        },
                    )
                } else {
                    Ok(
                        DocAcc {
                            clean: acc.clean + raw,
                            hrefs: acc.hrefs + tr.hrefs,
                            counters: tr.counters,
                            ..acc
                        },
                    )
                }
            }
        },
    }
}

pub open spec fn spec_run(ts: Seq<TokenModel>, acc: DocAcc) -> Result<DocAcc, ()>
    decreases ts.len(),
{
    if ts.len() == 0 {
        Ok(acc)
    } else {
        match spec_step(acc, ts[0]) {
            Ok(a) => spec_run(ts.drop_first(), a),
            Err(()) => Err(()),
        }
    }
}

/// The whole parse: tokenize, then fold. An error means the markup (or a
/// character reference in a collected body) is malformed.
pub open spec fn spec_parse(s: Seq<char>) -> Result<DocAcc, ()> {
    match spec_lex(s) {
        Ok(ts) => if !crate::lex::balanced(ts) {
            Err(())
        } else {
            spec_run(ts, init_acc())
        },
        Err(()) => Err(()),
    }
}

// ---------------------------------------------------------------------------
// Executable helpers
// ---------------------------------------------------------------------------
fn copy_chars(v: &[char]) -> (r: Vec<char>)
    ensures
        r@ == v@,
{
    let mut out: Vec<char> = Vec::new();
    push_range(&mut out, v, 0, v.len());
    proof {
        assert(v@.subrange(0, v@.len() as int) =~= v@);
    }
    out
}

/// Whether `v`, from `start` on, holds exactly the characters of `p`.
fn eq_from(v: &[char], start: usize, p: &[char]) -> (r: bool)
    requires
        start <= v@.len(),
    ensures
        r == (v@.skip(start as int) == p@),
{
    let n = v.len();
    let m = p.len();
    if n - start != m {
        proof {
            assert(v@.skip(start as int).len() == n - start);
        }
        return false;
    }
    let mut j: usize = 0;
    while j < m
        invariant
            0 <= j <= m,
            start + m == n,
            n == v@.len(),
            m == p@.len(),
            forall|k: int| 0 <= k < j ==> v@[start + k] == p@[k],
        decreases m - j,
    {
        if v[start + j] != p[j] {
            proof {
                assert(v@.skip(start as int)[j as int] == v@[start + j]);
            }
            return false;
        }
        j += 1;
    }
    proof {
        assert(v@.skip(start as int) =~= p@);
    }
    true
}

fn is_reserved_exec(name: &[char]) -> (r: bool)
    ensures
        r == is_reserved(name@),
{
    if name.len() >= 4 && name[0] == 'w' && name[1] == 'e' && name[2] == 'b' && name[3] == ':' {
        proof {
            assert(name@.subrange(0, 4) =~= reserved_prefix());
        }
        true
    } else {
        proof {
            if name@.len() >= 4 && name@.subrange(0, 4) == reserved_prefix() {
                assert(name@[0] == name@.subrange(0, 4)[0]);
                assert(name@[1] == name@.subrange(0, 4)[1]);
                assert(name@[2] == name@.subrange(0, 4)[2]);
                assert(name@[3] == name@.subrange(0, 4)[3]);
            }
        }
        false
    }
}

/// Looks up an attribute by key; on repeated keys the last wins.
fn attr_lookup(attrs: &Vec<Attr>, key: &[char]) -> (r: Option<Vec<char>>)
    ensures
        match r {
            Some(v) => attr_of(attrs.deep_view(), key@) == Some(v@),
            None => attr_of(attrs.deep_view(), key@) is None,
        },
{
    let n = attrs.len();
    let mut i: usize = n;
    proof {
        assert(attrs.deep_view().take(n as int) =~= attrs.deep_view());
    }
    while i > 0
        invariant
            0 <= i <= n,
            n == attrs@.len(),
            attr_of(attrs.deep_view(), key@) == attr_of(attrs.deep_view().take(i as int), key@),
        decreases i,
    {
        proof {
            assert(attrs.deep_view().take(i as int).last() == attrs.deep_view()[i - 1]);
            assert(attrs.deep_view().take(i as int).drop_last() =~= attrs.deep_view().take(
                i - 1,
            ));
        }
        if eq_from(attrs[i - 1].key.as_slice(), 0, key) {
            proof {
                assert(attrs[i - 1 as int].key@.skip(0) =~= attrs[i - 1 as int].key@);
            }
            return Some(copy_chars(attrs[i - 1].value.as_slice()));
        }
        proof {
            assert(attrs[i - 1 as int].key@.skip(0) =~= attrs[i - 1 as int].key@);
        }
        i -= 1;
    }
    None
}

/// Reads the digit run `v[a..b]` of a numeric character reference: its value
/// when every character is a digit of the base and the value is at most
/// 0x10FFFF; nothing otherwise.
fn scan_ref_value(v: &[char], a: usize, b: usize, hex: bool) -> (r: Option<u64>)
    requires
        a <= b <= v@.len(),
    ensures
        match r {
            Some(val) => all_ref_digits(v@, a as int, b as int, hex) && val == ref_value(
                v@,
                a as int,
                b as int,
                hex,
            ) && val <= 0x10FFFF,
            None => !all_ref_digits(v@, a as int, b as int, hex) || ref_value(
                v@,
                a as int,
                b as int,
                hex,
            ) > 0x10FFFF,
        },
{
    let mut acc: u64 = 0;
    let mut exceeded = false;
    let mut k = a;
    while k < b
        invariant
            a <= k <= b <= v@.len(),
            all_ref_digits(v@, a as int, k as int, hex),
            !exceeded ==> acc == ref_value(v@, a as int, k as int, hex) && acc <= 0x10FFFF,
            exceeded ==> ref_value(v@, a as int, k as int, hex) > 0x10FFFF,
        decreases b - k,
    {
        let c = v[k];
        let d: u64 = if '0' <= c && c <= '9' {
            (c as u32 - 48) as u64
        } else if hex && 'a' <= c && c <= 'f' {
            (c as u32 - 87) as u64
        } else if hex && 'A' <= c && c <= 'F' {
            (c as u32 - 55) as u64
        } else {
            proof {
                assert(!ref_digit_ok(v@[k as int], hex));
            }
            return None;
        };
        proof {
            assert(ref_digit_ok(v@[k as int], hex));
            assert(d == ref_digit_val(v@[k as int], hex));
            assert(ref_value(v@, a as int, k + 1, hex) == ref_value(v@, a as int, k as int, hex)
                * (if hex {
                16int
            } else {
                10int
            }) + ref_digit_val(v@[k as int], hex));
        }
        if exceeded {
            proof {
                let prev = ref_value(v@, a as int, k as int, hex);
                if hex {
                    assert(prev * 16int > 0x10FFFF) by {
                        assert(prev > 0x10FFFF);
                    }
                } else {
                    assert(prev * 10int > 0x10FFFF) by {
                        assert(prev > 0x10FFFF);
                    }
                }
            }
        } else {
            let new = if hex {
                acc * 16
            } else {
                acc * 10
            } + d;
            if new > 0x10FFFF {
                exceeded = true;
            } else {
                acc = new;
            }
        }
        k += 1;
    }
    if exceeded {
        None
    } else {
        Some(acc)
    }
}

/// Replaces the character references in `v`: the five named ones and the
/// numeric forms.
fn unescape(v: &[char]) -> (r: Result<Vec<char>, ()>)
    ensures
        match r {
            Ok(u) => spec_unescape(v@) == Ok::<_, ()>(u@),
            Err(()) => spec_unescape(v@) is Err,
        },
{
    let n = v.len();
    let mut out: Vec<char> = Vec::new();
    let mut i: usize = 0;
    while i < n
        invariant
            0 <= i <= n,
            n == v@.len(),
            unescape_from(v@, 0) == (match unescape_from(v@, i as int) {
                Ok(t) => Ok::<_, ()>(out@ + t),
                Err(()) => Err::<Seq<char>, ()>(()),
            }),
        decreases n - i,
    {
        let (c, adv): (char, usize) = if v[i] == '&' {
            if n - i >= 4 && v[i + 1] == 'l' && v[i + 2] == 't' && v[i + 3] == ';' {
                proof {
                    assert(v@.subrange(i as int, i + 4) =~= seq!['&', 'l', 't', ';']);
                }
                ('<', 4)
            } else if n - i >= 4 && v[i + 1] == 'g' && v[i + 2] == 't' && v[i + 3] == ';' {
                proof {
                    assert(v@.subrange(i as int, i + 4) =~= seq!['&', 'g', 't', ';']);
                }
                ('>', 4)
            } else if n - i >= 5 && v[i + 1] == 'a' && v[i + 2] == 'm' && v[i + 3] == 'p' && v[i
                + 4] == ';' {
                proof {
                    assert(v@.subrange(i as int, i + 5) =~= seq!['&', 'a', 'm', 'p', ';']);
                }
                ('&', 5)
            } else if n - i >= 6 && v[i + 1] == 'a' && v[i + 2] == 'p' && v[i + 3] == 'o' && v[i
                + 4] == 's' && v[i + 5] == ';' {
                proof {
                    assert(v@.subrange(i as int, i + 6) =~= seq!['&', 'a', 'p', 'o', 's', ';']);
                }
                ('\'', 6)
            } else if n - i >= 6 && v[i + 1] == 'q' && v[i + 2] == 'u' && v[i + 3] == 'o' && v[i
                + 4] == 't' && v[i + 5] == ';' {
                proof {
                    assert(v@.subrange(i as int, i + 6) =~= seq!['&', 'q', 'u', 'o', 't', ';']);
                }
                ('"', 6)
            } else if n - i >= 2 && v[i + 1] == '#' {
                proof {
                    lemma_named_refs_not_at(v@, i as int);
                    assert(v@.subrange(i as int, i + 2) =~= seq!['&', '#']);
                    assert(sub_at(v@, seq!['&', '#'], i as int));
                }
                let hex = i + 2 < n && v[i + 2] == 'x';
                let start = if hex {
                    i + 3
                } else {
                    i + 2
                };
                let j = crate::lex::scan_to_char_exec(v, start, ';');
                if j == n || j == start {
                    return Err(());
                }
                match scan_ref_value(v, start, j, hex) {
                    None => {
                        return Err(());
                    },
                    Some(val) => {
                        if 0xD800 <= val && val <= 0xDFFF {
                            return Err(());
                        }
                        proof {
                            assert(is_scalar(val as int));
                            assert(val as u32 == val);
                        }
                        let c = match char_from_u32(val as u32) {
                            Some(c) => c,
                            None => {
                                proof {
                                    assert(false);
                                }
                                unreached()
                            },
                        };
                        proof {
                            assert(c == ref_value(v@, start as int, j as int, hex) as char);
                        }
                        (c, j + 1 - i)
                    },
                }
            } else {
                proof {
                    lemma_entity_mismatch(v@, i as int);
                }
                return Err(());
            }
        } else {
            (v[i], 1)
        };
        let ghost old_out = out@;
        out.push(c);
        proof {
            match unescape_from(v@, i + adv) {
                Ok(t) => {
                    assert(unescape_from(v@, i as int) == Ok::<_, ()>(seq![c] + t));
                    assert(old_out + (seq![c] + t) =~= out@ + t);
                },
                Err(()) => {},
            }
        }
        i += adv;
    }
    proof {
        assert(out@ + Seq::<char>::empty() =~= out@);
    }
    Ok(out)
}

/// No named reference stands at `i` when each pattern's characters are
/// refuted.
proof fn lemma_named_refs_not_at(s: Seq<char>, i: int)
    requires
        0 <= i < s.len(),
        s[i] == '&',
        !(i + 4 <= s.len() && s[i + 1] == 'l' && s[i + 2] == 't' && s[i + 3] == ';'),
        !(i + 4 <= s.len() && s[i + 1] == 'g' && s[i + 2] == 't' && s[i + 3] == ';'),
        !(i + 5 <= s.len() && s[i + 1] == 'a' && s[i + 2] == 'm' && s[i + 3] == 'p' && s[i + 4]
            == ';'),
        !(i + 6 <= s.len() && s[i + 1] == 'a' && s[i + 2] == 'p' && s[i + 3] == 'o' && s[i + 4]
            == 's' && s[i + 5] == ';'),
        !(i + 6 <= s.len() && s[i + 1] == 'q' && s[i + 2] == 'u' && s[i + 3] == 'o' && s[i + 4]
            == 't' && s[i + 5] == ';'),
    ensures
        !sub_at(s, seq!['&', 'l', 't', ';'], i),
        !sub_at(s, seq!['&', 'g', 't', ';'], i),
        !sub_at(s, seq!['&', 'a', 'm', 'p', ';'], i),
        !sub_at(s, seq!['&', 'a', 'p', 'o', 's', ';'], i),
        !sub_at(s, seq!['&', 'q', 'u', 'o', 't', ';'], i),
{
    assert(!sub_at(s, seq!['&', 'l', 't', ';'], i)) by {
        if sub_at(s, seq!['&', 'l', 't', ';'], i) {
            assert(s.subrange(i, i + 4)[1] == s[i + 1]);
            assert(s.subrange(i, i + 4)[2] == s[i + 2]);
            assert(s.subrange(i, i + 4)[3] == s[i + 3]);
        }
    }
    assert(!sub_at(s, seq!['&', 'g', 't', ';'], i)) by {
        if sub_at(s, seq!['&', 'g', 't', ';'], i) {
            assert(s.subrange(i, i + 4)[1] == s[i + 1]);
            assert(s.subrange(i, i + 4)[2] == s[i + 2]);
            assert(s.subrange(i, i + 4)[3] == s[i + 3]);
        }
    }
    assert(!sub_at(s, seq!['&', 'a', 'm', 'p', ';'], i)) by {
        if sub_at(s, seq!['&', 'a', 'm', 'p', ';'], i) {
            assert(s.subrange(i, i + 5)[1] == s[i + 1]);
            assert(s.subrange(i, i + 5)[2] == s[i + 2]);
            assert(s.subrange(i, i + 5)[3] == s[i + 3]);
            assert(s.subrange(i, i + 5)[4] == s[i + 4]);
        }
    }
    assert(!sub_at(s, seq!['&', 'a', 'p', 'o', 's', ';'], i)) by {
        if sub_at(s, seq!['&', 'a', 'p', 'o', 's', ';'], i) {
            assert(s.subrange(i, i + 6)[1] == s[i + 1]);
            assert(s.subrange(i, i + 6)[2] == s[i + 2]);
            assert(s.subrange(i, i + 6)[3] == s[i + 3]);
            assert(s.subrange(i, i + 6)[4] == s[i + 4]);
            assert(s.subrange(i, i + 6)[5] == s[i + 5]);
        }
    }
    assert(!sub_at(s, seq!['&', 'q', 'u', 'o', 't', ';'], i)) by {
        if sub_at(s, seq!['&', 'q', 'u', 'o', 't', ';'], i) {
            assert(s.subrange(i, i + 6)[1] == s[i + 1]);
            assert(s.subrange(i, i + 6)[2] == s[i + 2]);
            assert(s.subrange(i, i + 6)[3] == s[i + 3]);
            assert(s.subrange(i, i + 6)[4] == s[i + 4]);
            assert(s.subrange(i, i + 6)[5] == s[i + 5]);
        }
    }
}

/// If neither a named nor a numeric reference starts at `i`, unescaping
/// fails there.
proof fn lemma_entity_mismatch(s: Seq<char>, i: int)
    requires
        0 <= i < s.len(),
        s[i] == '&',
        !(i + 4 <= s.len() && s[i + 1] == 'l' && s[i + 2] == 't' && s[i + 3] == ';'),
        !(i + 4 <= s.len() && s[i + 1] == 'g' && s[i + 2] == 't' && s[i + 3] == ';'),
        !(i + 5 <= s.len() && s[i + 1] == 'a' && s[i + 2] == 'm' && s[i + 3] == 'p' && s[i + 4]
            == ';'),
        !(i + 6 <= s.len() && s[i + 1] == 'a' && s[i + 2] == 'p' && s[i + 3] == 'o' && s[i + 4]
            == 's' && s[i + 5] == ';'),
        !(i + 6 <= s.len() && s[i + 1] == 'q' && s[i + 2] == 'u' && s[i + 3] == 'o' && s[i + 4]
            == 't' && s[i + 5] == ';'),
        !(i + 2 <= s.len() && s[i + 1] == '#'),
    ensures
        unescape_from(s, i) is Err,
{
    lemma_named_refs_not_at(s, i);
    assert(!sub_at(s, seq!['&', '#'], i)) by {
        if sub_at(s, seq!['&', '#'], i) {
            assert(s.subrange(i, i + 2)[1] == s[i + 1]);
        }
    }
}

/// Renders `<name ...attrs...>` (or `<name ...attrs.../>`) onto `out`.
fn render_tag_exec(name: &[char], attrs: &Vec<Attr>, kind: TagKind, out: &mut Vec<char>)
    requires
        kind != TagKind::End,
    ensures
        final(out)@ == old(out)@ + render_tag(name@, attrs.deep_view(), kind),
{
    let n = attrs.len();
    out.push('<');
    push_range(out, name, 0, name.len());
    proof {
        assert(name@.subrange(0, name@.len() as int) =~= name@);
        assert(attrs.deep_view().take(0) =~= Seq::<AttrModel>::empty());
        assert(out@ =~= old(out)@ + seq!['<'] + name@ + render_attrs(attrs.deep_view().take(0)));
    }
    let mut i: usize = 0;
    while i < n
        invariant
            0 <= i <= n,
            n == attrs@.len(),
            out@ == old(out)@ + seq!['<'] + name@ + render_attrs(attrs.deep_view().take(i as int)),
        decreases n - i,
    {
        let ghost pre = out@;
        out.push(' ');
        push_range(out, attrs[i].key.as_slice(), 0, attrs[i].key.len());
        out.push('=');
        out.push('"');
        push_range(out, attrs[i].value.as_slice(), 0, attrs[i].value.len());
        out.push('"');
        proof {
            let dv = attrs.deep_view();
            assert(attrs[i as int].key@.subrange(0, attrs[i as int].key@.len() as int)
                =~= dv[i as int].key);
            assert(attrs[i as int].value@.subrange(0, attrs[i as int].value@.len() as int)
                =~= dv[i as int].value);
            assert(out@ =~= pre + render_attr(dv[i as int]));
            assert(dv.take(i + 1).drop_last() =~= dv.take(i as int));
            assert(dv.take(i + 1).last() == dv[i as int]);
            assert(render_attrs(dv.take(i + 1)) == render_attrs(dv.take(i as int)) + render_attr(
                dv[i as int],
            ));
            assert(out@ =~= old(out)@ + seq!['<'] + name@ + render_attrs(dv.take(i + 1)));
        }
        i += 1;
    }
    proof {
        assert(attrs.deep_view().take(n as int) =~= attrs.deep_view());
    }
    if matches!(kind, TagKind::Empty) {
        out.push('/');
        out.push('>');
        proof {
            assert(out@ =~= old(out)@ + render_tag(name@, attrs.deep_view(), kind));
        }
    } else {
        out.push('>');
        proof {
            assert(out@ =~= old(out)@ + render_tag(name@, attrs.deep_view(), kind));
        }
    }
}

/// Trims one element's attribute list: drops reserved attributes, registers
/// links, injects autogenerated ids. Returns the kept attributes, the link
/// registrations, and whether anything reserved was seen.
fn trim_attrs_exec(attrs: &Vec<Attr>, gen: &mut IdAutogenerator) -> (r: (
    Vec<Attr>,
    Vec<(String, String)>,
    bool,
))
    ensures
        ({
            let tr = trim_attrs(attrs.deep_view(), attrs.deep_view(), old(gen).counters());
            &&& r.0.deep_view() == tr.kept
            &&& r.1.deep_view() == tr.hrefs
            &&& final(gen).counters() == tr.counters
            &&& r.2 == tr.touched
        }),
{
    let ghost dv = attrs.deep_view();
    let ghost full = trim_attrs(dv, dv, old(gen).counters());
    let n = attrs.len();
    let mut kept: Vec<Attr> = Vec::new();
    let mut hrefs: Vec<(String, String)> = Vec::new();
    let mut touched = false;
    let id_pat: Vec<char> = vec!['i', 'd'];
    let class_pat: Vec<char> = vec!['c', 'l', 'a', 's', 's'];
    let href_pat: Vec<char> = vec!['h', 'r', 'e', 'f'];
    proof {
        assert(id_pat@ =~= id_attr());
        assert(class_pat@ =~= class_attr());
        assert(href_pat@ =~= href_local());
        assert(dv.skip(0) =~= dv);
        assert(kept.deep_view() =~= Seq::<AttrModel>::empty());
        assert(hrefs.deep_view() =~= Seq::<(Seq<char>, Seq<char>)>::empty());
    }
    let id_opt = attr_lookup(attrs, id_pat.as_slice());
    let class_opt = attr_lookup(attrs, class_pat.as_slice());
    let class_str: Option<String> = match &class_opt {
        Some(c) => Some(string_from_chars(c.as_slice())),
        None => None,
    };
    let mut i: usize = 0;
    while i < n
        invariant
            0 <= i <= n,
            n == attrs@.len(),
            dv == attrs.deep_view(),
            full == trim_attrs(dv, dv, old(gen).counters()),
            id_pat@ == id_attr(),
            class_pat@ == class_attr(),
            href_pat@ == href_local(),
            match id_opt {
                Some(v) => attr_of(dv, id_attr()) == Some(v@),
                None => attr_of(dv, id_attr()) is None,
            },
            match class_opt {
                Some(v) => attr_of(dv, class_attr()) == Some(v@),
                None => attr_of(dv, class_attr()) is None,
            },
            match (&class_str, &class_opt) {
                (Some(s), Some(v)) => s@ == v@,
                (None, None) => true,
                _ => false,
            },
            ({
                let rest = trim_attrs(dv.skip(i as int), dv, gen.counters());
                &&& full.kept == kept.deep_view() + rest.kept
                &&& full.hrefs == hrefs.deep_view() + rest.hrefs
                &&& full.counters == rest.counters
                &&& full.touched == (touched || rest.touched)
            }),
        decreases n - i,
    {
        proof {
            assert(dv.skip(i as int)[0] == dv[i as int]);
            assert(dv.skip(i as int).drop_first() =~= dv.skip(i + 1));
        }
        let ghost rest_pre = trim_attrs(dv.skip(i as int), dv, gen.counters());
        let a_key_reserved = is_reserved_exec(attrs[i].key.as_slice());
        if !a_key_reserved {
            let a_copy = Attr {
                key: copy_chars(attrs[i].key.as_slice()),
                value: copy_chars(attrs[i].value.as_slice()),
            };
            let ghost kept_pre = kept.deep_view();
            kept.push(a_copy);
            proof {
                assert(kept.deep_view() =~= kept_pre.push(dv[i as int]));
                let rest = trim_attrs(dv.skip(i + 1), dv, gen.counters());
                assert(rest_pre.kept == seq![dv[i as int]] + rest.kept);
                assert(kept_pre + (seq![dv[i as int]] + rest.kept) =~= kept_pre.push(
                    dv[i as int],
                ) + rest.kept);
            }
        } else if eq_from(attrs[i].key.as_slice(), 4, href_pat.as_slice()) {
            touched = true;
            match &id_opt {
                Some(id) => {
                    let entry = (
                        string_from_chars(id.as_slice()),
                        string_from_chars(attrs[i].value.as_slice()),
                    );
                    let ghost hrefs_pre = hrefs.deep_view();
                    hrefs.push(entry);
                    proof {
                        assert(hrefs.deep_view() =~= hrefs_pre.push((id@, dv[i as int].value)));
                        let rest = trim_attrs(dv.skip(i + 1), dv, gen.counters());
                        assert(rest_pre.hrefs == seq![(id@, dv[i as int].value)] + rest.hrefs);
                        assert(hrefs_pre + (seq![(id@, dv[i as int].value)] + rest.hrefs)
                            =~= hrefs_pre.push((id@, dv[i as int].value)) + rest.hrefs);
                    }
                },
                None => {
                    match &class_str {
                        Some(class) => {
                            if gen.count(class) < u64::MAX {
                                let new_id = gen.next(class);
                                let a_new = Attr {
                                    key: copy_chars(id_pat.as_slice()),
                                    value: chars_of(new_id.as_str()),
                                };
                                let ghost kept_pre = kept.deep_view();
                                let ghost hrefs_pre = hrefs.deep_view();
                                kept.push(a_new);
                                let entry = (
                                    new_id,
                                    string_from_chars(attrs[i].value.as_slice()),
                                );
                                hrefs.push(entry);
                                proof {
                                    let idm = autogen_id(
                                        class@,
                                        (counter_of(
                                            trim_attrs(
                                                dv.skip(i as int),
                                                dv,
                                                gen.counters(),
                                            ).counters,
                                            class@,
                                        ) + 1) as nat,
                                    );
                                    let rest = trim_attrs(dv.skip(i + 1), dv, gen.counters());
                                    assert(kept.deep_view() =~= kept_pre.push(
                                        AttrModel { key: id_attr(), value: a_new.value@ },
                                    ));
                                    assert(hrefs.deep_view() =~= hrefs_pre.push(
                                        (a_new.value@, dv[i as int].value),
                                    ));
                                    assert(kept_pre + (seq![
                                        AttrModel { key: id_attr(), value: a_new.value@ },
                                    ] + rest.kept) =~= kept_pre.push(
                                        AttrModel { key: id_attr(), value: a_new.value@ },
                                    ) + rest.kept);
                                    assert(hrefs_pre + (seq![(a_new.value@, dv[i as int].value)]
                                        + rest.hrefs) =~= hrefs_pre.push(
                                        (a_new.value@, dv[i as int].value),
                                    ) + rest.hrefs);
                                }
                            }
                        },
                        None => {},
                    }
                },
            }
        } else {
            touched = true;
        }
        i += 1;
    }
    proof {
        assert(dv.skip(n as int).len() == 0);
        let rest = trim_attrs(dv.skip(n as int), dv, gen.counters());
        assert(rest.kept =~= Seq::<AttrModel>::empty());
        assert(kept.deep_view() + rest.kept =~= kept.deep_view());
        assert(hrefs.deep_view() + rest.hrefs =~= hrefs.deep_view());
    }
    (kept, hrefs, touched)
}

/// Assembles the transform state from its parts.
pub open spec fn mk_acc(
    clean: Seq<char>,
    hrefs: Seq<(Seq<char>, Seq<char>)>,
    scripts: Seq<(Lang, Seq<char>)>,
    styles: Seq<char>,
    title: Option<Seq<char>>,
    counters: Seq<(Seq<char>, u64)>,
    script_mode: ScriptMode,
    current_script: Seq<char>,
    reading_style: bool,
) -> DocAcc {
    DocAcc {
        clean,
        hrefs,
        scripts,
        styles,
        title,
        counters,
        script_mode,
        current_script,
        reading_style,
    }
}

/// The language and body of each script, in document order.
pub open spec fn scripts_view(v: Seq<Script>) -> Seq<(Lang, Seq<char>)> {
    Seq::new(v.len(), |i: int| (v[i].lang, v[i].text@))
}

/// Applies one token to the transform state, exactly as `spec_step` says.
#[verifier::rlimit(30)]
fn step(
    clean: &mut Vec<char>,
    hrefs: &mut Vec<(String, String)>,
    scripts: &mut Vec<Script>,
    styles: &mut Vec<char>,
    title: &mut Option<String>,
    gen: &mut IdAutogenerator,
    script_mode: &mut ScriptMode,
    current_script: &mut Vec<char>,
    reading_style: &mut bool,
    t: &Token,
) -> (r: Result<(), ()>)
    ensures
        ({
            let pre = mk_acc(
                old(clean)@,
                old(hrefs).deep_view(),
                scripts_view(old(scripts)@),
                old(styles)@,
                old(title).deep_view(),
                old(gen).counters(),
                *old(script_mode),
                old(current_script)@,
                *old(reading_style),
            );
            let post = mk_acc(
                final(clean)@,
                final(hrefs).deep_view(),
                scripts_view(final(scripts)@),
                final(styles)@,
                final(title).deep_view(),
                final(gen).counters(),
                *final(script_mode),
                final(current_script)@,
                *final(reading_style),
            );
            match r {
                Ok(()) => spec_step(pre, t@) == Ok::<_, ()>(post),
                Err(()) => spec_step(pre, t@) is Err && post == pre,
            }
        }),
{
    match t {
        Token::Text { raw } => {
            if matches!(*script_mode, ScriptMode::Collecting(_)) {
                match unescape(raw.as_slice()) {
                    Ok(u) => {
                        push_range(current_script, u.as_slice(), 0, u.len());
                        proof {
                            assert(u@.subrange(0, u@.len() as int) =~= u@);
                        }
                        Ok(())
                    },
                    Err(()) => Err(()),
                }
            } else if matches!(*script_mode, ScriptMode::Skipping) {
                Ok(())
            } else if *reading_style {
                match unescape(raw.as_slice()) {
                    Ok(u) => {
                        push_range(styles, u.as_slice(), 0, u.len());
                        proof {
                            assert(u@.subrange(0, u@.len() as int) =~= u@);
                        }
                        Ok(())
                    },
                    Err(()) => Err(()),
                }
            } else {
                push_range(clean, raw.as_slice(), 0, raw.len());
                proof {
                    assert(raw@.subrange(0, raw@.len() as int) =~= raw@);
                }
                Ok(())
            }
        },
        Token::Other { raw } => {
            push_range(clean, raw.as_slice(), 0, raw.len());
            proof {
                assert(raw@.subrange(0, raw@.len() as int) =~= raw@);
            }
            Ok(())
        },
        Token::Tag { raw, name, attrs, kind } => {
            let script_pat: Vec<char> = vec!['s', 'c', 'r', 'i', 'p', 't'];
            let style_pat: Vec<char> = vec!['s', 't', 'y', 'l', 'e'];
            let page_pat: Vec<char> = vec!['p', 'a', 'g', 'e'];
            let type_pat: Vec<char> = vec!['t', 'y', 'p', 'e'];
            let title_pat: Vec<char> = vec!['t', 'i', 't', 'l', 'e'];
            let lua_pat: Vec<char> = vec!['l', 'u', 'a'];
            proof {
                assert(script_pat@ =~= script_local());
                assert(style_pat@ =~= style_local());
                assert(page_pat@ =~= page_local());
                assert(type_pat@ =~= type_attr());
                assert(title_pat@ =~= title_attr());
                assert(lua_pat@ =~= lua_name());
            }
            if is_reserved_exec(name.as_slice()) {
                match kind {
                    TagKind::Start => {
                        if eq_from(name.as_slice(), 4, script_pat.as_slice()) {
                            match attr_lookup(attrs, type_pat.as_slice()) {
                                Some(ty) => {
                                    if eq_from(ty.as_slice(), 0, lua_pat.as_slice()) {
                                        proof {
                                            assert(ty@.skip(0) =~= ty@);
                                        }
                                        *script_mode = ScriptMode::Collecting(Lang::Lua);
                                        current_script.clear();
                                        proof {
                                            assert(current_script@ =~= Seq::<char>::empty());
                                        }
                                    } else {
                                        proof {
                                            assert(ty@.skip(0) =~= ty@);
                                        }
                                        *script_mode = ScriptMode::Skipping;
                                    }
                                },
                                None => {
                                    *script_mode = ScriptMode::Skipping;
                                },
                            }
                        } else if eq_from(name.as_slice(), 4, style_pat.as_slice()) {
                            *reading_style = true;
                        }
                        Ok(())
                    },
                    TagKind::Empty => {
                        if eq_from(name.as_slice(), 4, page_pat.as_slice()) {
                            match attr_lookup(attrs, title_pat.as_slice()) {
                                Some(v) => {
                                    *title = Some(string_from_chars(v.as_slice()));
                                },
                                None => {},
                            }
                        }
                        Ok(())
                    },
                    TagKind::End => {
                        if eq_from(name.as_slice(), 4, script_pat.as_slice()) {
                            let mode = *script_mode;
                            match mode {
                                ScriptMode::Collecting(lang) => {
                                    let text = string_from_chars(current_script.as_slice());
                                    let ghost pre_scripts = scripts_view(scripts@);
                                    scripts.push(Script::new(lang, text));
                                    *script_mode = ScriptMode::Off;
                                    proof {
                                        assert(scripts_view(scripts@) =~= pre_scripts.push(
                                            (lang, current_script@),
                                        ));
                                    }
                                },
                                ScriptMode::Skipping => {
                                    *script_mode = ScriptMode::Off;
                                },
                                ScriptMode::Off => {},
                            }
                        } else if eq_from(name.as_slice(), 4, style_pat.as_slice()) {
                            *reading_style = false;
                        }
                        Ok(())
                    },
                }
            } else if matches!(kind, TagKind::End) {
                push_range(clean, raw.as_slice(), 0, raw.len());
                proof {
                    assert(raw@.subrange(0, raw@.len() as int) =~= raw@);
                }
                Ok(())
            } else {
                let (kept, mut hr, touched) = trim_attrs_exec(attrs, gen);
                let ghost pre_hrefs = hrefs.deep_view();
                let ghost hr_dv = hr.deep_view();
                hrefs.append(&mut hr);
                proof {
                    assert(hrefs.deep_view() =~= pre_hrefs + hr_dv);
                }
                if touched {
                    render_tag_exec(name.as_slice(), &kept, *kind, clean);
                } else {
                    push_range(clean, raw.as_slice(), 0, raw.len());
                    proof {
                        assert(raw@.subrange(0, raw@.len() as int) =~= raw@);
                    }
                }
                Ok(())
            }
        },
    }
}

/// A parsed document: the markup with reserved-namespace constructs removed,
/// the link map, the scripts in order, the inline styles, and the title.
pub struct Definition {
    /// The UI definition with the reserved-namespace extensions removed.
    pub buildable: String,
    /// Link registrations: widget id and target, in document order.
    pub hrefs: Vec<(String, String)>,
    /// The scripts to execute, in document order.
    pub scripts: Vec<Script>,
    /// The collected inline styles.
    pub styles: String,
    /// The page title, when the document sets one.
    pub title: Option<String>,
}

impl Definition {
    /// Parses a document. Succeeds exactly when the markup is well formed —
    /// the text lexes, tags nest properly, no element repeats an attribute
    /// key, and every character reference in a collected script or style body
    /// resolves — and then returns exactly the transform `spec_parse`
    /// describes.
    pub fn new(src: &str) -> (r: Result<Definition, Error>)
        ensures
            spec_parse(src@) is Ok <==> r is Ok,
            r is Ok ==> ({
                let m = spec_parse(src@)->Ok_0;
                let d = r->Ok_0;
                &&& d.buildable@ == m.clean
                &&& d.hrefs.deep_view() == m.hrefs
                &&& scripts_view(d.scripts@) == m.scripts
                &&& d.styles@ == m.styles
                &&& d.title.deep_view() == m.title
            }),
            r is Err ==> (r->Err_0 matches Error::XmlError(m) && (m@ == "malformed markup"@ || m@
                == "malformed character reference"@)),
    {
        let chars = chars_of(src);
        let tokens = match lex(chars.as_slice()) {
            Ok(ts) => ts,
            Err(()) => {
                return Err(Error::XmlError(String::from_str("malformed markup")));
            },
        };
        if !crate::lex::check_balanced(&tokens) {
            return Err(Error::XmlError(String::from_str("malformed markup")));
        }
        let ghost ts_dv = tokens.deep_view();
        let n = tokens.len();
        let mut clean: Vec<char> = Vec::new();
        let mut hrefs: Vec<(String, String)> = Vec::new();
        let mut scripts: Vec<Script> = Vec::new();
        let mut styles: Vec<char> = Vec::new();
        let mut title: Option<String> = None;
        let mut gen = IdAutogenerator::new();
        let mut script_mode: ScriptMode = ScriptMode::Off;
        let mut current_script: Vec<char> = Vec::new();
        let mut reading_style = false;
        proof {
            assert(ts_dv.skip(0) =~= ts_dv);
            assert(hrefs.deep_view() =~= Seq::<(Seq<char>, Seq<char>)>::empty());
            assert(scripts_view(scripts@) =~= Seq::<(Lang, Seq<char>)>::empty());
        }
        let mut i: usize = 0;
        while i < n
            invariant
                0 <= i <= n,
                n == tokens@.len(),
                ts_dv == tokens.deep_view(),
                spec_lex(src@) == Ok::<Seq<TokenModel>, ()>(ts_dv),
                spec_run(ts_dv, init_acc()) == spec_run(
                    ts_dv.skip(i as int),
                    mk_acc(
                        clean@,
                        hrefs.deep_view(),
                        scripts_view(scripts@),
                        styles@,
                        title.deep_view(),
                        gen.counters(),
                        script_mode,
                        current_script@,
                        reading_style,
                    ),
                ),
            decreases n - i,
        {
            proof {
                assert(ts_dv.skip(i as int)[0] == ts_dv[i as int]);
                assert(ts_dv.skip(i as int).drop_first() =~= ts_dv.skip(i + 1));
            }
            match step(
                &mut clean,
                &mut hrefs,
                &mut scripts,
                &mut styles,
                &mut title,
                &mut gen,
                &mut script_mode,
                &mut current_script,
                &mut reading_style,
                &tokens[i],
            ) {
                Ok(()) => {},
                Err(()) => {
                    proof {
                        let cur = mk_acc(
                            clean@,
                            hrefs.deep_view(),
                            scripts_view(scripts@),
                            styles@,
                            title.deep_view(),
                            gen.counters(),
                            script_mode,
                            current_script@,
                            reading_style,
                        );
                        assert(ts_dv[i as int] == tokens@[i as int]@);
                        assert(spec_step(cur, ts_dv[i as int]) is Err);
                        assert(spec_run(ts_dv.skip(i as int), cur) is Err);
                    }
                    return Err(Error::XmlError(String::from_str("malformed character reference")));
                },
            }
            i += 1;
        }
        proof {
            assert(ts_dv.skip(n as int).len() == 0);
        }
        Ok(
            Definition {
                buildable: string_from_chars(clean.as_slice()),
                hrefs,
                scripts,
                styles: string_from_chars(styles.as_slice()),
                title,
            },
        )
    }

    /// The target registered for a widget id; on repeated ids the last wins.
    pub fn href_of(&self, id: &String) -> (r: Option<&String>)
        ensures
            match r {
                Some(v) => href_target(self.hrefs.deep_view(), id@) == Some(v@),
                None => href_target(self.hrefs.deep_view(), id@) is None,
            },
    {
        let n = self.hrefs.len();
        let mut i: usize = n;
        proof {
            assert(self.hrefs.deep_view().take(n as int) =~= self.hrefs.deep_view());
        }
        while i > 0
            invariant
                0 <= i <= n,
                n == self.hrefs@.len(),
                href_target(self.hrefs.deep_view(), id@) == href_target(
                    self.hrefs.deep_view().take(i as int),
                    id@,
                ),
            decreases i,
        {
            proof {
                assert(self.hrefs.deep_view().take(i as int).last() == self.hrefs.deep_view()[i
                    - 1]);
                assert(self.hrefs.deep_view().take(i as int).drop_last()
                    =~= self.hrefs.deep_view().take(i - 1));
            }
            if self.hrefs[i - 1].0 == *id {
                return Some(&self.hrefs[i - 1].1);
            }
            i -= 1;
        }
        None
    }
}

/// The target registered under `id`; on repeated ids the last wins.
pub open spec fn href_target(hrefs: Seq<(Seq<char>, Seq<char>)>, id: Seq<char>) -> Option<
    Seq<char>,
>
    decreases hrefs.len(),
{
    if hrefs.len() == 0 {
        None
    } else if hrefs.last().0 == id {
        Some(hrefs.last().1)
    } else {
        href_target(hrefs.drop_last(), id)
    }
}

/// Splits a reserved-namespace name: for a name whose prefix (the part before
/// the first colon) is "web", yields the local part.
pub fn parse_web_tag(name: &str) -> (r: Option<String>)
    ensures
        match r {
            Some(l) => is_reserved(name@) && l@ == local_of(name@),
            None => !is_reserved(name@),
        },
{
    let v = chars_of(name);
    if is_reserved_exec(v.as_slice()) {
        let mut local: Vec<char> = Vec::new();
        push_range(&mut local, v.as_slice(), 4, v.len());
        proof {
            assert(v@.subrange(4, v@.len() as int) =~= v@.skip(4));
        }
        Some(string_from_chars(local.as_slice()))
    } else {
        None
    }
}

// ---------------------------------------------------------------------------
// Laws
// ---------------------------------------------------------------------------
/// A token that carries nothing of the reserved namespace: no reserved
/// element name and no reserved attribute key.
pub open spec fn no_reserved_token(t: TokenModel) -> bool {
    match t {
        TokenModel::Text { .. } => true,
        TokenModel::Other { .. } => true,
        TokenModel::Tag { name, attrs, .. } => !is_reserved(name) && forall|j: int|
            0 <= j < attrs.len() ==> !is_reserved(#[trigger] attrs[j].key),
    }
}

proof fn lemma_cons_no_reserved(x: AttrModel, rest: Seq<AttrModel>)
    requires
        !is_reserved(x.key),
        forall|j: int| 0 <= j < rest.len() ==> !is_reserved(#[trigger] rest[j].key),
    ensures
        forall|j: int|
            0 <= j < (seq![x] + rest).len() ==> !is_reserved(#[trigger] (seq![x] + rest)[j].key),
{
    assert forall|j: int| 0 <= j < (seq![x] + rest).len() implies !is_reserved(
        #[trigger] (seq![x] + rest)[j].key,
    ) by {
        if j == 0 {
            assert((seq![x] + rest)[0] == x);
        } else {
            assert((seq![x] + rest)[j] == rest[j - 1]);
        }
    }
}

/// Law: every attribute the transform writes out lies outside the reserved
/// namespace — trimming keeps only non-reserved attributes, and an injected
/// id attribute's key is "id".
pub proof fn lemma_trim_attrs_clean(
    attrs: Seq<AttrModel>,
    all: Seq<AttrModel>,
    counters: Seq<(Seq<char>, u64)>,
)
    ensures
        forall|j: int|
            0 <= j < trim_attrs(attrs, all, counters).kept.len() ==> !is_reserved(
                #[trigger] trim_attrs(attrs, all, counters).kept[j].key,
            ),
    decreases attrs.len(),
{
    if attrs.len() > 0 {
        let a = attrs[0];
        assert(!is_reserved(id_attr())) by {
            assert(id_attr().len() < 4);
        }
        if !is_reserved(a.key) {
            lemma_trim_attrs_clean(attrs.drop_first(), all, counters);
            lemma_cons_no_reserved(a, trim_attrs(attrs.drop_first(), all, counters).kept);
        } else if local_of(a.key) == href_local() {
            match attr_of(all, id_attr()) {
                Some(_) => {
                    lemma_trim_attrs_clean(attrs.drop_first(), all, counters);
                },
                None => match attr_of(all, class_attr()) {
                    Some(class) => {
                        if counter_of(counters, class) < u64::MAX {
                            lemma_trim_attrs_clean(attrs.drop_first(), all, bump(counters, class));
                            lemma_cons_no_reserved(
                                AttrModel {
                                    key: id_attr(),
                                    value: autogen_id(
                                        class,
                                        (counter_of(counters, class) + 1) as nat,
                                    ),
                                },
                                trim_attrs(attrs.drop_first(), all, bump(counters, class)).kept,
                            );
                        } else {
                            lemma_trim_attrs_clean(attrs.drop_first(), all, counters);
                        }
                    },
                    None => {
                        lemma_trim_attrs_clean(attrs.drop_first(), all, counters);
                    },
                },
            }
        } else {
            lemma_trim_attrs_clean(attrs.drop_first(), all, counters);
        }
    }
}

/// Law: a reserved-namespace element never reaches the clean markup: the
/// transform of a reserved tag leaves `clean` unchanged.
pub proof fn lemma_reserved_tag_not_emitted(acc: DocAcc, t: TokenModel)
    requires
        t is Tag,
        is_reserved(t->Tag_name),
        spec_step(acc, t) is Ok,
    ensures
        spec_step(acc, t)->Ok_0.clean == acc.clean,
{
}

/// Law: the clean markup holds no reserved-namespace attributes or elements.
/// Reserved-named elements add nothing to it (`lemma_reserved_tag_not_emitted`);
/// what a non-reserved element adds is either its own characters, which then
/// carry no reserved attribute at all, or a rebuilt tag whose name and every
/// written attribute lie outside the reserved namespace.
pub proof fn lemma_emitted_element_clean(acc: DocAcc, t: TokenModel)
    requires
        t is Tag,
        !is_reserved(t->Tag_name),
        t->Tag_kind != TagKind::End,
    ensures
        spec_step(acc, t) is Ok,
        ({
            let name = t->Tag_name;
            let attrs = t->Tag_attrs;
            let tr = trim_attrs(attrs, attrs, acc.counters);
            let out = spec_step(acc, t)->Ok_0;
            if tr.touched {
                &&& out.clean == acc.clean + render_tag(name, tr.kept, t->Tag_kind)
                &&& forall|j: int|
                    0 <= j < tr.kept.len() ==> !is_reserved(#[trigger] tr.kept[j].key)
            } else {
                &&& out.clean == acc.clean + crate::lex::raw_of(t)
                &&& forall|j: int| 0 <= j < attrs.len() ==> !is_reserved(#[trigger] attrs[j].key)
            }
        }),
{
    let attrs = t->Tag_attrs;
    let tr = trim_attrs(attrs, attrs, acc.counters);
    lemma_trim_attrs_clean(attrs, attrs, acc.counters);
    if !tr.touched {
        lemma_untouched_no_reserved(attrs, attrs, acc.counters);
    }
}

/// Law: a tag the transform copies through verbatim (one trimming left
/// untouched) carries no reserved attribute at all.
pub proof fn lemma_untouched_no_reserved(
    attrs: Seq<AttrModel>,
    all: Seq<AttrModel>,
    counters: Seq<(Seq<char>, u64)>,
)
    requires
        !trim_attrs(attrs, all, counters).touched,
    ensures
        forall|j: int| 0 <= j < attrs.len() ==> !is_reserved(#[trigger] attrs[j].key),
    decreases attrs.len(),
{
    if attrs.len() > 0 {
        let a = attrs[0];
        if !is_reserved(a.key) {
            lemma_untouched_no_reserved(attrs.drop_first(), all, counters);
            assert forall|j: int| 0 <= j < attrs.len() implies !is_reserved(
                #[trigger] attrs[j].key,
            ) by {
                if j > 0 {
                    assert(attrs.drop_first()[j - 1] == attrs[j]);
                }
            }
        }
    }
}

/// An element untouched by the reserved namespace is trimmed to itself: no
/// attribute is dropped or added, no link is registered, and the counters
/// stay.
pub proof fn lemma_trim_attrs_untouched(
    attrs: Seq<AttrModel>,
    all: Seq<AttrModel>,
    counters: Seq<(Seq<char>, u64)>,
)
    requires
        forall|j: int| 0 <= j < attrs.len() ==> !is_reserved(#[trigger] attrs[j].key),
    ensures
        !trim_attrs(attrs, all, counters).touched,
        trim_attrs(attrs, all, counters).kept == attrs,
        trim_attrs(attrs, all, counters).hrefs == Seq::<(Seq<char>, Seq<char>)>::empty(),
        trim_attrs(attrs, all, counters).counters == counters,
    decreases attrs.len(),
{
    if attrs.len() == 0 {
        assert(trim_attrs(attrs, all, counters).kept =~= attrs);
    } else {
        assert(!is_reserved(attrs[0].key));
        lemma_trim_attrs_untouched(attrs.drop_first(), all, counters);
        assert(seq![attrs[0]] + attrs.drop_first() =~= attrs);
    }
}

/// Law: a document with no reserved-namespace content passes through the
/// transform verbatim: the clean markup grows by exactly the tokens' own
/// characters, and nothing else changes.
pub proof fn lemma_run_verbatim(ts: Seq<TokenModel>, acc: DocAcc)
    requires
        forall|j: int| 0 <= j < ts.len() ==> no_reserved_token(#[trigger] ts[j]),
        acc.script_mode == ScriptMode::Off,
        !acc.reading_style,
    ensures
        spec_run(ts, acc) is Ok,
        spec_run(ts, acc)->Ok_0 == (DocAcc {
            clean: acc.clean + crate::lex::concat_raws(ts),
            ..acc
        }),
    decreases ts.len(),
{
    if ts.len() == 0 {
        assert(acc.clean + crate::lex::concat_raws(ts) =~= acc.clean);
        assert(spec_run(ts, acc)->Ok_0 == DocAcc { clean: acc.clean + crate::lex::concat_raws(ts), ..acc });
    } else {
        let t = ts[0];
        let raw = crate::lex::raw_of(t);
        let next = DocAcc { clean: acc.clean + raw, ..acc };
        match t {
            TokenModel::Text { .. } => {},
            TokenModel::Other { .. } => {},
            TokenModel::Tag { name, attrs, kind, .. } => {
                if kind != TagKind::End {
                    lemma_trim_attrs_untouched(attrs, attrs, acc.counters);
                    assert(acc.hrefs + Seq::<(Seq<char>, Seq<char>)>::empty() =~= acc.hrefs);
                }
            },
        }
        assert(spec_step(acc, t) == Ok::<_, ()>(next));
        lemma_run_verbatim(ts.drop_first(), next);
        assert((acc.clean + raw) + crate::lex::concat_raws(ts.drop_first()) =~= acc.clean
            + crate::lex::concat_raws(ts));
    }
}

/// Law: a document with no reserved-namespace content round-trips — its
/// clean markup equals the input exactly, and it carries no links, scripts,
/// styles or title.
pub proof fn lemma_round_trip(s: Seq<char>)
    requires
        spec_lex(s) is Ok,
        crate::lex::balanced(spec_lex(s)->Ok_0),
        forall|j: int|
            0 <= j < spec_lex(s)->Ok_0.len() ==> no_reserved_token(#[trigger] spec_lex(s)->Ok_0[j]),
    ensures
        spec_parse(s) is Ok,
        spec_parse(s)->Ok_0.clean == s,
        spec_parse(s)->Ok_0.hrefs == Seq::<(Seq<char>, Seq<char>)>::empty(),
        spec_parse(s)->Ok_0.scripts == Seq::<(Lang, Seq<char>)>::empty(),
        spec_parse(s)->Ok_0.styles == Seq::<char>::empty(),
        spec_parse(s)->Ok_0.title is None,
{
    let ts = spec_lex(s)->Ok_0;
    lemma_run_verbatim(ts, init_acc());
    crate::lex::lemma_lex_exact(s, 0);
    assert(s.subrange(0, s.len() as int) =~= s);
    assert(init_acc().clean + crate::lex::concat_raws(ts) =~= crate::lex::concat_raws(ts));
}

/// While a script element is being skipped, its body text and its end tag
/// change nothing but the mode: the end tag restores the state exactly.
proof fn lemma_skipping_to_end(ts: Seq<TokenModel>, acc: DocAcc)
    requires
        acc.script_mode == ScriptMode::Off,
        ts.len() >= 1,
        forall|k: int| 0 <= k < ts.len() - 1 ==> (#[trigger] ts[k]) is Text,
        ts.last() is Tag,
        ts.last()->Tag_kind == TagKind::End,
        is_reserved(ts.last()->Tag_name),
        local_of(ts.last()->Tag_name) == script_local(),
    ensures
        spec_run(ts, DocAcc { script_mode: ScriptMode::Skipping, ..acc }) == Ok::<DocAcc, ()>(acc),
    decreases ts.len(),
{
    let skipping = DocAcc { script_mode: ScriptMode::Skipping, ..acc };
    if ts.len() == 1 {
        assert(spec_step(skipping, ts[0]) == Ok::<DocAcc, ()>(acc));
        assert(ts.drop_first().len() == 0);
        assert(spec_run(ts.drop_first(), acc) == Ok::<DocAcc, ()>(acc));
    } else {
        assert(ts[0] is Text);
        assert(spec_step(skipping, ts[0]) == Ok::<DocAcc, ()>(skipping));
        assert forall|k: int| 0 <= k < ts.drop_first().len() - 1 implies (#[trigger] ts.drop_first()[k]) is Text by {
            assert(ts.drop_first()[k] == ts[k + 1]);
        }
        assert(ts.drop_first().last() == ts.last());
        lemma_skipping_to_end(ts.drop_first(), acc);
    }
}

/// Law: a script element with an unrecognized (or missing) type is skipped
/// whole — transforming its start tag, its body text and its end tag leaves
/// the state exactly as it was: neither the element nor its body reaches the
/// clean markup, and no script is collected.
pub proof fn lemma_unknown_script_type_skipped(acc: DocAcc, ts: Seq<TokenModel>)
    requires
        acc.script_mode == ScriptMode::Off,
        ts.len() >= 2,
        ts[0] is Tag,
        ts[0]->Tag_kind == TagKind::Start,
        is_reserved(ts[0]->Tag_name),
        local_of(ts[0]->Tag_name) == script_local(),
        match attr_of(ts[0]->Tag_attrs, type_attr()) {
            Some(ty) => ty != lua_name(),
            None => true,
        },
        forall|k: int| 1 <= k < ts.len() - 1 ==> (#[trigger] ts[k]) is Text,
        ts.last() is Tag,
        ts.last()->Tag_kind == TagKind::End,
        is_reserved(ts.last()->Tag_name),
        local_of(ts.last()->Tag_name) == script_local(),
    ensures
        spec_run(ts, acc) == Ok::<DocAcc, ()>(acc),
{
    let skipping = DocAcc { script_mode: ScriptMode::Skipping, ..acc };
    assert(spec_step(acc, ts[0]) == Ok::<DocAcc, ()>(skipping));
    assert forall|k: int| 0 <= k < ts.drop_first().len() - 1 implies (#[trigger] ts.drop_first()[k]) is Text by {
        assert(ts.drop_first()[k] == ts[k + 1]);
    }
    assert(ts.drop_first().last() == ts.last());
    lemma_skipping_to_end(ts.drop_first(), acc);
}

/// The (class, counter) stamps of the ids autogenerated while trimming one
/// element's attributes, in generation order.
pub open spec fn gen_pairs_attrs(
    attrs: Seq<AttrModel>,
    all: Seq<AttrModel>,
    counters: Seq<(Seq<char>, u64)>,
) -> Seq<(Seq<char>, u64)>
    decreases attrs.len(),
{
    if attrs.len() == 0 {
        Seq::empty()
    } else {
        let a = attrs[0];
        if is_reserved(a.key) && local_of(a.key) == href_local() && attr_of(all, id_attr())
            is None && attr_of(all, class_attr()) is Some && counter_of(
            counters,
            attr_of(all, class_attr())->0,
        ) < u64::MAX {
            let class = attr_of(all, class_attr())->0;
            seq![((class, (counter_of(counters, class) + 1) as u64))] + gen_pairs_attrs(
                attrs.drop_first(),
                all,
                bump(counters, class),
            )
        } else {
            gen_pairs_attrs(attrs.drop_first(), all, counters)
        }
    }
}

/// Trimming never lowers a counter.
pub proof fn lemma_trim_counters_monotone(
    attrs: Seq<AttrModel>,
    all: Seq<AttrModel>,
    counters: Seq<(Seq<char>, u64)>,
    c: Seq<char>,
)
    ensures
        counter_of(counters, c) <= counter_of(trim_attrs(attrs, all, counters).counters, c),
    decreases attrs.len(),
{
    if attrs.len() > 0 {
        let a = attrs[0];
        if is_reserved(a.key) && local_of(a.key) == href_local() && attr_of(all, id_attr())
            is None && attr_of(all, class_attr()) is Some && counter_of(
            counters,
            attr_of(all, class_attr())->0,
        ) < u64::MAX {
            let class = attr_of(all, class_attr())->0;
            lemma_bump_counter(counters, class, c);
            lemma_trim_counters_monotone(attrs.drop_first(), all, bump(counters, class), c);
        } else {
            lemma_trim_counters_monotone(attrs.drop_first(), all, counters, c);
        }
    }
}

/// Each stamp generated while trimming lies strictly above the counter the
/// element started with and at or below the counter it ended with, and the
/// stamps are pairwise distinct.
pub proof fn lemma_gen_pairs_attrs(
    attrs: Seq<AttrModel>,
    all: Seq<AttrModel>,
    counters: Seq<(Seq<char>, u64)>,
)
    ensures
        ({
            let ps = gen_pairs_attrs(attrs, all, counters);
            let after = trim_attrs(attrs, all, counters).counters;
            &&& forall|i: int|
                0 <= i < ps.len() ==> counter_of(counters, (#[trigger] ps[i]).0) < ps[i].1
                    <= counter_of(after, ps[i].0)
            &&& forall|i: int, j: int| 0 <= i < j < ps.len() ==> ps[i] != ps[j]
        }),
    decreases attrs.len(),
{
    if attrs.len() > 0 {
        let a = attrs[0];
        let ps = gen_pairs_attrs(attrs, all, counters);
        let after = trim_attrs(attrs, all, counters).counters;
        if is_reserved(a.key) && local_of(a.key) == href_local() && attr_of(all, id_attr())
            is None && attr_of(all, class_attr()) is Some && counter_of(
            counters,
            attr_of(all, class_attr())->0,
        ) < u64::MAX {
            let class = attr_of(all, class_attr())->0;
            let bumped = bump(counters, class);
            let n0 = (counter_of(counters, class) + 1) as u64;
            let rest = gen_pairs_attrs(attrs.drop_first(), all, bumped);
            lemma_gen_pairs_attrs(attrs.drop_first(), all, bumped);
            assert(ps == seq![((class, n0))] + rest);
            assert(ps[0] == (class, n0));
            assert(trim_attrs(attrs, all, counters).counters == trim_attrs(
                attrs.drop_first(),
                all,
                bumped,
            ).counters);
            assert forall|i: int|
                0 <= i < ps.len() implies counter_of(counters, (#[trigger] ps[i]).0) < ps[i].1
                <= counter_of(after, ps[i].0) by {
                if i == 0 {
                    lemma_bump_counter(counters, class, class);
                    lemma_trim_counters_monotone(attrs.drop_first(), all, bumped, class);
                } else {
                    assert(ps[i] == rest[i - 1]);
                    lemma_bump_counter(counters, class, ps[i].0);
                }
            }
            assert forall|i: int, j: int| 0 <= i < j < ps.len() implies ps[i] != ps[j] by {
                if i == 0 {
                    assert(ps[j] == rest[j - 1]);
                    if rest[j - 1].0 == class {
                        lemma_bump_counter(counters, class, class);
                        assert(counter_of(bumped, rest[j - 1].0) < rest[j - 1].1);
                        assert(rest[j - 1].1 > n0);
                    }
                } else {
                    assert(ps[i] == rest[i - 1]);
                    assert(ps[j] == rest[j - 1]);
                }
            }
        } else {
            lemma_gen_pairs_attrs(attrs.drop_first(), all, counters);
            assert(ps == gen_pairs_attrs(attrs.drop_first(), all, counters));
            assert(after == trim_attrs(attrs.drop_first(), all, counters).counters || (
            !is_reserved(a.key) && after == trim_attrs(
                attrs.drop_first(),
                all,
                counters,
            ).counters));
        }
    }
}

/// The stamps of the ids one token's transform autogenerates.
pub open spec fn gen_pairs_step(acc: DocAcc, t: TokenModel) -> Seq<(Seq<char>, u64)> {
    match t {
        TokenModel::Tag { name, attrs, kind, .. } => {
            if !is_reserved(name) && kind != TagKind::End {
                gen_pairs_attrs(attrs, attrs, acc.counters)
            } else {
                Seq::empty()
            }
        },
        _ => Seq::empty(),
    }
}

/// The stamps of all ids the transform autogenerates, in document order.
pub open spec fn gen_pairs_run(ts: Seq<TokenModel>, acc: DocAcc) -> Seq<(Seq<char>, u64)>
    decreases ts.len(),
{
    if ts.len() == 0 {
        Seq::empty()
    } else {
        match spec_step(acc, ts[0]) {
            Ok(a2) => gen_pairs_step(acc, ts[0]) + gen_pairs_run(ts.drop_first(), a2),
            Err(()) => Seq::empty(),
        }
    }
}

/// One transform step leaves every counter at least where it was, and its
/// stamps fall strictly between the counters before and after.
proof fn lemma_step_counters(acc: DocAcc, t: TokenModel, c: Seq<char>)
    requires
        spec_step(acc, t) is Ok,
    ensures
        counter_of(acc.counters, c) <= counter_of(spec_step(acc, t)->Ok_0.counters, c),
        ({
            let ps = gen_pairs_step(acc, t);
            let after = spec_step(acc, t)->Ok_0.counters;
            &&& forall|i: int|
                0 <= i < ps.len() ==> counter_of(acc.counters, (#[trigger] ps[i]).0) < ps[i].1
                    <= counter_of(after, ps[i].0)
            &&& forall|i: int, j: int| 0 <= i < j < ps.len() ==> ps[i] != ps[j]
        }),
{
    match t {
        TokenModel::Tag { name, attrs, kind, .. } => {
            if !is_reserved(name) && kind != TagKind::End {
                assert(spec_step(acc, t)->Ok_0.counters == trim_attrs(
                    attrs,
                    attrs,
                    acc.counters,
                ).counters);
                lemma_trim_counters_monotone(attrs, attrs, acc.counters, c);
                lemma_gen_pairs_attrs(attrs, attrs, acc.counters);
            } else {
                assert(spec_step(acc, t)->Ok_0.counters == acc.counters);
            }
        },
        _ => {
            assert(spec_step(acc, t)->Ok_0.counters == acc.counters);
        },
    }
}

/// The whole transform leaves every counter at least where it was.
proof fn lemma_run_counters_monotone(ts: Seq<TokenModel>, acc: DocAcc, c: Seq<char>)
    requires
        spec_run(ts, acc) is Ok,
    ensures
        counter_of(acc.counters, c) <= counter_of(spec_run(ts, acc)->Ok_0.counters, c),
    decreases ts.len(),
{
    if ts.len() > 0 {
        let a2 = spec_step(acc, ts[0])->Ok_0;
        lemma_step_counters(acc, ts[0], c);
        lemma_run_counters_monotone(ts.drop_first(), a2, c);
    }
}

/// Every stamp the transform generates lies strictly above the counter the
/// document started with and at or below the final counter of its class, and
/// the stamps are pairwise distinct.
proof fn lemma_gen_pairs_run(ts: Seq<TokenModel>, acc: DocAcc)
    requires
        spec_run(ts, acc) is Ok,
    ensures
        ({
            let ps = gen_pairs_run(ts, acc);
            let after = spec_run(ts, acc)->Ok_0.counters;
            &&& forall|i: int|
                0 <= i < ps.len() ==> counter_of(acc.counters, (#[trigger] ps[i]).0) < ps[i].1
                    <= counter_of(after, ps[i].0)
            &&& forall|i: int, j: int| 0 <= i < j < ps.len() ==> ps[i] != ps[j]
        }),
    decreases ts.len(),
{
    if ts.len() > 0 {
        let a2 = spec_step(acc, ts[0])->Ok_0;
        let head = gen_pairs_step(acc, ts[0]);
        let rest = gen_pairs_run(ts.drop_first(), a2);
        let ps = gen_pairs_run(ts, acc);
        let after = spec_run(ts, acc)->Ok_0.counters;
        assert(ps == head + rest);
        lemma_gen_pairs_run(ts.drop_first(), a2);
        assert forall|i: int|
            0 <= i < ps.len() implies counter_of(acc.counters, (#[trigger] ps[i]).0) < ps[i].1
            <= counter_of(after, ps[i].0) by {
            if i < head.len() {
                assert(ps[i] == head[i]);
                lemma_step_counters(acc, ts[0], ps[i].0);
                lemma_run_counters_monotone(ts.drop_first(), a2, ps[i].0);
            } else {
                assert(ps[i] == rest[i - head.len()]);
                lemma_step_counters(acc, ts[0], ps[i].0);
            }
        }
        assert forall|i: int, j: int| 0 <= i < j < ps.len() implies ps[i] != ps[j] by {
            if j < head.len() {
                lemma_step_counters(acc, ts[0], head[i].0);
            } else if i >= head.len() {
                assert(ps[i] == rest[i - head.len()]);
                assert(ps[j] == rest[j - head.len()]);
            } else {
                assert(ps[i] == head[i]);
                assert(ps[j] == rest[j - head.len()]);
                if head[i].0 == ps[j].0 {
                    lemma_step_counters(acc, ts[0], head[i].0);
                    assert(head[i].1 <= counter_of(a2.counters, head[i].0));
                    assert(counter_of(a2.counters, ps[j].0) < ps[j].1);
                }
            }
        }
    }
}

/// Law: autogenerated ids are unique per document — any two ids the parse
/// autogenerates for a document are distinct, whatever the class names hold.
pub proof fn lemma_autogen_ids_unique(s: Seq<char>)
    requires
        spec_parse(s) is Ok,
    ensures
        ({
            let ps = gen_pairs_run(spec_lex(s)->Ok_0, init_acc());
            forall|i: int, j: int|
                0 <= i < j < ps.len() ==> crate::text::autogen_id(
                    (#[trigger] ps[i]).0,
                    ps[i].1 as nat,
                ) != crate::text::autogen_id((#[trigger] ps[j]).0, ps[j].1 as nat)
        }),
{
    let ts = spec_lex(s)->Ok_0;
    lemma_gen_pairs_run(ts, init_acc());
    let ps = gen_pairs_run(ts, init_acc());
    assert forall|i: int, j: int| 0 <= i < j < ps.len() implies crate::text::autogen_id(
        (#[trigger] ps[i]).0,
        ps[i].1 as nat,
    ) != crate::text::autogen_id((#[trigger] ps[j]).0, ps[j].1 as nat) by {
        assert(ps[i] != ps[j]);
        crate::text::lemma_autogen_id_injective(
            ps[i].0,
            ps[i].1 as nat,
            ps[j].0,
            ps[j].1 as nat,
        );
    }
}

// ---------------------------------------------------------------------------
// The assembled output
// ---------------------------------------------------------------------------
/// The tokens one transform step writes into the clean markup: text and
/// opaque constructs outside script and style bodies, non-reserved end tags,
/// and non-reserved elements — verbatim when untouched, rebuilt from the
/// trimmed attributes when touched. Reserved-named tags and collected or
/// skipped bodies contribute nothing.
pub open spec fn out_step(acc: DocAcc, t: TokenModel) -> Seq<TokenModel> {
    match t {
        TokenModel::Text { .. } => {
            if acc.script_mode is Collecting {
                Seq::empty()
            } else if acc.script_mode is Skipping {
                Seq::empty()
            } else if acc.reading_style {
                Seq::empty()
            } else {
                seq![t]
            }
        },
        TokenModel::Other { .. } => seq![t],
        TokenModel::Tag { raw, name, attrs, kind } => {
            if is_reserved(name) {
                Seq::empty()
            } else if kind == TagKind::End {
                seq![t]
            } else {
                let tr = trim_attrs(attrs, attrs, acc.counters);
                if tr.touched {
                    seq![
                        TokenModel::Tag {
                            raw: render_tag(name, tr.kept, kind),
                            name,
                            attrs: tr.kept,
                            kind,
                        },
                    ]
                } else {
                    seq![t]
                }
            }
        },
    }
}

/// All the tokens the transform writes into the clean markup, in order.
pub open spec fn out_run(ts: Seq<TokenModel>, acc: DocAcc) -> Seq<TokenModel>
    decreases ts.len(),
{
    if ts.len() == 0 {
        Seq::empty()
    } else {
        match spec_step(acc, ts[0]) {
            Ok(a2) => out_step(acc, ts[0]) + out_run(ts.drop_first(), a2),
            Err(()) => Seq::empty(),
        }
    }
}

/// One step grows the clean markup by exactly its output tokens' characters,
/// and none of those tokens carries anything reserved.
proof fn lemma_out_step(acc: DocAcc, t: TokenModel)
    requires
        spec_step(acc, t) is Ok,
        t is Tag && t->Tag_kind == TagKind::End ==> t->Tag_attrs.len() == 0,
    ensures
        spec_step(acc, t)->Ok_0.clean == acc.clean + crate::lex::concat_raws(out_step(acc, t)),
        forall|j: int|
            0 <= j < out_step(acc, t).len() ==> no_reserved_token(#[trigger] out_step(acc, t)[j]),
{
    let out = out_step(acc, t);
    if out.len() == 0 {
        assert(crate::lex::concat_raws(out) =~= Seq::<char>::empty());
        assert(acc.clean + Seq::<char>::empty() =~= acc.clean);
    } else {
        assert(out.len() == 1);
        assert(out.drop_first() =~= Seq::<TokenModel>::empty());
        assert(crate::lex::concat_raws(Seq::<TokenModel>::empty()) =~= Seq::<char>::empty());
        assert(crate::lex::concat_raws(out) == crate::lex::raw_of(out[0])
            + crate::lex::concat_raws(out.drop_first()));
        assert(crate::lex::concat_raws(out) =~= crate::lex::raw_of(out[0]));
    }
    match t {
        TokenModel::Text { .. } => {},
        TokenModel::Other { .. } => {},
        TokenModel::Tag { raw, name, attrs, kind } => {
            if !is_reserved(name) && kind != TagKind::End {
                let tr = trim_attrs(attrs, attrs, acc.counters);
                if tr.touched {
                    lemma_trim_attrs_clean(attrs, attrs, acc.counters);
                } else {
                    lemma_untouched_no_reserved(attrs, attrs, acc.counters);
                }
            }
        },
    }
}

/// The transform grows the clean markup by exactly its output tokens'
/// characters, and none of those tokens carries anything reserved.
proof fn lemma_out_run(ts: Seq<TokenModel>, acc: DocAcc)
    requires
        spec_run(ts, acc) is Ok,
        forall|j: int|
            0 <= j < ts.len() ==> ((#[trigger] ts[j]) is Tag && ts[j]->Tag_kind == TagKind::End
                ==> ts[j]->Tag_attrs.len() == 0),
    ensures
        spec_run(ts, acc)->Ok_0.clean == acc.clean + crate::lex::concat_raws(out_run(ts, acc)),
        forall|j: int|
            0 <= j < out_run(ts, acc).len() ==> no_reserved_token(#[trigger] out_run(ts, acc)[j]),
    decreases ts.len(),
{
    let out = out_run(ts, acc);
    if ts.len() == 0 {
        assert(crate::lex::concat_raws(out) =~= Seq::<char>::empty());
        assert(acc.clean + Seq::<char>::empty() =~= acc.clean);
    } else {
        let a2 = spec_step(acc, ts[0])->Ok_0;
        let head = out_step(acc, ts[0]);
        let rest = out_run(ts.drop_first(), a2);
        lemma_out_step(acc, ts[0]);
        assert forall|j: int|
            0 <= j < ts.drop_first().len() && (#[trigger] ts.drop_first()[j]) is Tag
                && ts.drop_first()[j]->Tag_kind == TagKind::End implies ts.drop_first()[
            j
        ]->Tag_attrs.len() == 0 by {
            assert(ts.drop_first()[j] == ts[j + 1]);
        }
        lemma_out_run(ts.drop_first(), a2);
        crate::lex::lemma_concat_raws_app(head, rest);
        assert(out == head + rest);
        assert((acc.clean + crate::lex::concat_raws(head)) + crate::lex::concat_raws(rest)
            =~= acc.clean + (crate::lex::concat_raws(head) + crate::lex::concat_raws(rest)));
        assert forall|j: int| 0 <= j < out.len() implies no_reserved_token(
            #[trigger] out[j],
        ) by {
            if j < head.len() {
                assert(out[j] == head[j]);
            } else {
                assert(out[j] == rest[j - head.len()]);
            }
        }
    }
}

/// Law: the assembled clean markup holds no reserved-namespace content — the
/// clean markup of a parsed document is exactly the concatenation of the
/// transform's output tokens, and no output token carries a reserved element
/// name or a reserved attribute key.
pub proof fn lemma_clean_markup_reserved_free(s: Seq<char>)
    requires
        spec_parse(s) is Ok,
    ensures
        ({
            let out = out_run(spec_lex(s)->Ok_0, init_acc());
            &&& spec_parse(s)->Ok_0.clean == crate::lex::concat_raws(out)
            &&& forall|j: int| 0 <= j < out.len() ==> no_reserved_token(#[trigger] out[j])
        }),
{
    let ts = spec_lex(s)->Ok_0;
    crate::lex::lemma_lex_end_tags_bare(s, 0);
    lemma_out_run(ts, init_acc());
    assert(init_acc().clean + crate::lex::concat_raws(out_run(ts, init_acc()))
        =~= crate::lex::concat_raws(out_run(ts, init_acc())));
}

} // verus!
