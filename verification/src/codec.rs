//! The durable text format of the reminder store: a root element wrapping
//! zero or more `reminder` elements, each with a `name` and a `time` child.
//!
//! Parsing is specified as a character-level state machine ([`step`], [`run`]):
//! text runs between tags are character data, `<...>` is a start tag and
//! `</...>` an end tag. Character data inside a `reminder` element is trimmed
//! of ASCII whitespace and assigned to the field named by the last start tag;
//! elements outside the schema are ignored; a tag left open at the end of the
//! input is the one malformation reported. Reserved markup characters in
//! names are written through unescaped — a documented limitation of the
//! format.

use vstd::prelude::*;
use vstd::string::*;

use crate::reminder::{views_of, RemView, Reminder};
use crate::text::{lemma_trimmed_ws_only, str_eq, trim_str, trimmed, ws_only};

verus! {

/// Why a store document failed to parse.
#[derive(Clone, Copy, Debug, PartialEq, Eq, Structural)]
pub enum ParseError {
    /// The input ended inside a `<...>` tag.
    UnclosedTag,
}

/// The parser's state between characters.
#[verifier::ext_equal]
pub struct ParserState {
    /// Whether the parser is inside a `<...>` tag.
    pub in_tag: bool,
    /// The current run of character data (meaningful outside tags).
    pub text: Seq<char>,
    /// The body of the current tag (meaningful inside tags).
    pub tag: Seq<char>,
    /// The name of the last start tag seen.
    pub elem: Seq<char>,
    /// Whether a `reminder` element is open.
    pub inside: bool,
    /// The `name` field collected for the open `reminder` element.
    pub cur_name: Seq<char>,
    /// The `time` field collected for the open `reminder` element.
    pub cur_time: Seq<char>,
    /// The reminders completed so far.
    pub acc: Seq<RemView>,
}

/// The state before any character has been read.
pub open spec fn init_state() -> ParserState {
    ParserState {
        in_tag: false,
        text: Seq::empty(),
        tag: Seq::empty(),
        elem: Seq::empty(),
        inside: false,
        cur_name: Seq::empty(),
        cur_time: Seq::empty(),
        acc: Seq::empty(),
    }
}

/// Consumes a finished run of character data: inside a `reminder` element,
/// non-blank data is trimmed and assigned to the field the last start tag
/// named.
pub open spec fn flush_text(st: ParserState) -> ParserState {
    if st.inside && trimmed(st.text) != Seq::<char>::empty() {
        if st.elem == "name"@ {
            ParserState { cur_name: trimmed(st.text), ..st }
        } else if st.elem == "time"@ {
            ParserState { cur_time: trimmed(st.text), ..st }
        } else {
            st
        }
    } else {
        st
    }
}

/// Consumes a finished tag body: `/reminder` completes the open reminder,
/// `reminder` opens a fresh one, and any other start tag merely becomes the
/// current element name.
pub open spec fn apply_tag(st: ParserState) -> ParserState {
    let t = st.tag;
    if t.len() > 0 && t[0] == '/' {
        if t.subrange(1, t.len() as int) == "reminder"@ && st.inside {
            ParserState {
                acc: st.acc.push(RemView { name: st.cur_name, time: st.cur_time }),
                inside: false,
                ..st
            }
        } else {
            st
        }
    } else {
        if t == "reminder"@ {
            ParserState {
                elem: t,
                inside: true,
                cur_name: Seq::empty(),
                cur_time: Seq::empty(),
                ..st
            }
        } else {
            ParserState { elem: t, ..st }
        }
    }
}

/// One character of input.
pub open spec fn step(st: ParserState, c: char) -> ParserState {
    if !st.in_tag {
        if c == '<' {
            ParserState { in_tag: true, text: Seq::empty(), tag: Seq::empty(), ..flush_text(st) }
        } else {
            ParserState { text: st.text.push(c), ..st }
        }
    } else {
        if c == '>' {
            ParserState { in_tag: false, text: Seq::empty(), tag: Seq::empty(), ..apply_tag(st) }
        } else {
            ParserState { tag: st.tag.push(c), ..st }
        }
    }
}

/// The state machine run over a whole input.
pub open spec fn run(st: ParserState, s: Seq<char>) -> ParserState
    decreases s.len(),
{
    if s.len() == 0 {
        st
    } else {
        run(step(st, s[0]), s.drop_first())
    }
}

/// What a store document denotes: the reminders collected, or nothing when a
/// tag is left open.
pub open spec fn spec_parse(s: Seq<char>) -> Option<Seq<RemView>> {
    let st = run(init_state(), s);
    if st.in_tag {
        None
    } else {
        Some(st.acc)
    }
}

/// Running one more character is one more step.
pub proof fn lemma_run_snoc(st: ParserState, a: Seq<char>, c: char)
    ensures
        run(st, a.push(c)) == step(run(st, a), c),
    decreases a.len(),
{
    if a.len() == 0 {
        assert(a.push(c)[0] == c);
        assert(a.push(c).drop_first() =~= Seq::<char>::empty());
        assert(run(step(st, c), Seq::<char>::empty()) == step(st, c));
    } else {
        assert(a.push(c)[0] == a[0]);
        assert(a.push(c).drop_first() =~= a.drop_first().push(c));
        lemma_run_snoc(step(st, a[0]), a.drop_first(), c);
    }
}

/// The stored shape of one reminder element.
pub open spec fn spec_render_entry(r: RemView) -> Seq<char> {
    "  <reminder>\n    <name>"@ + r.name + "</name>\n    <time>"@ + r.time
        + "</time>\n  </reminder>\n"@
}

/// The stored shape of a sequence of reminder elements, in order.
pub open spec fn spec_render_entries(rs: Seq<RemView>) -> Seq<char>
    decreases rs.len(),
{
    if rs.len() == 0 {
        Seq::empty()
    } else {
        spec_render_entry(rs[0]) + spec_render_entries(rs.drop_first())
    }
}

/// The full store document for a collection of reminders.
pub open spec fn spec_render(rs: Seq<RemView>) -> Seq<char> {
    "<reminders>\n"@ + spec_render_entries(rs) + "</reminders>\n"@
}

/// Rendering one more entry appends its shape.
pub proof fn lemma_render_entries_snoc(rs: Seq<RemView>, r: RemView)
    ensures
        spec_render_entries(rs.push(r)) == spec_render_entries(rs) + spec_render_entry(r),
    decreases rs.len(),
{
    if rs.len() == 0 {
        reveal_with_fuel(spec_render_entries, 3);
        assert(rs.push(r)[0] == r);
        assert(rs.push(r).drop_first() =~= Seq::<RemView>::empty());
        assert(spec_render_entries(rs.push(r)) =~= spec_render_entries(rs) + spec_render_entry(
            r,
        ));
    } else {
        assert(rs.push(r)[0] == rs[0]);
        assert(rs.push(r).drop_first() =~= rs.drop_first().push(r));
        lemma_render_entries_snoc(rs.drop_first(), r);
        assert(spec_render_entries(rs.push(r)) == spec_render_entry(rs[0]) + (
        spec_render_entries(rs.drop_first()) + spec_render_entry(r)));
        assert(spec_render_entry(rs[0]) + (spec_render_entries(rs.drop_first())
            + spec_render_entry(r)) =~= (spec_render_entry(rs[0]) + spec_render_entries(
            rs.drop_first(),
        )) + spec_render_entry(r));
    }
}

/// Renders the whole collection as a store document; mirrors [`spec_render`].
pub fn render_reminders(rs: &Vec<Reminder>) -> (r: String)
    ensures
        r@ == spec_render(views_of(rs@)),
{
    let ghost et = views_of(rs@);
    let mut out = String::from_str("<reminders>\n");
    proof {
        assert(et.take(0) =~= Seq::<RemView>::empty());
        assert(out@ =~= "<reminders>\n"@ + spec_render_entries(et.take(0)));
    }
    let mut i: usize = 0;
    while i < rs.len()
        invariant
            0 <= i <= rs.len(),
            et == views_of(rs@),
            out@ == "<reminders>\n"@ + spec_render_entries(et.take(i as int)),
        decreases rs.len() - i,
    {
        out.append("  <reminder>\n    <name>");
        out.append(rs[i].name.as_str());
        out.append("</name>\n    <time>");
        out.append(rs[i].time.as_str());
        out.append("</time>\n  </reminder>\n");
        proof {
            assert(et.take(i + 1) =~= et.take(i as int).push(et[i as int]));
            lemma_render_entries_snoc(et.take(i as int), et[i as int]);
            assert(out@ =~= "<reminders>\n"@ + spec_render_entries(et.take(i + 1)));
        }
        i = i + 1;
    }
    out.append("</reminders>\n");
    proof {
        assert(et.take(rs@.len() as int) =~= et);
        assert(out@ =~= spec_render(et));
    }
    out
}

/// Parses a store document; mirrors [`spec_parse`].
pub fn parse_reminders(s: &str) -> (r: Result<Vec<Reminder>, ParseError>)
    ensures
        match r {
            Ok(v) => spec_parse(s@) == Some(views_of(v@)),
            Err(_) => spec_parse(s@) is None,
        },
{
    let n = s.unicode_len();
    let mut in_tag = false;
    let mut seg_start: usize = 0;
    let mut elem = String::new();
    let mut inside = false;
    let mut cur_name = String::new();
    let mut cur_time = String::new();
    let mut out: Vec<Reminder> = Vec::new();
    proof {
        assert(s@.take(0) =~= Seq::<char>::empty());
        assert(s@.subrange(0, 0) =~= Seq::<char>::empty());
        assert(views_of(out@) =~= Seq::<RemView>::empty());
    }
    let mut i: usize = 0;
    while i < n
        invariant
            0 <= i <= n == s@.len(),
            seg_start <= i,
            ({
                let st = run(init_state(), s@.take(i as int));
                &&& st.in_tag == in_tag
                &&& (!in_tag ==> st.text == s@.subrange(seg_start as int, i as int))
                &&& (in_tag ==> st.tag == s@.subrange(seg_start as int, i as int))
                &&& st.elem == elem@
                &&& st.inside == inside
                &&& st.cur_name == cur_name@
                &&& st.cur_time == cur_time@
                &&& st.acc == views_of(out@)
            }),
        decreases n - i,
    {
        proof {
            lemma_run_snoc(init_state(), s@.take(i as int), s@[i as int]);
            assert(s@.take(i + 1) =~= s@.take(i as int).push(s@[i as int]));
        }
        let c = s.get_char(i);
        if !in_tag {
            if c == '<' {
                if inside {
                    let chunk = s.substring_char(seg_start, i);
                    let t = trim_str(chunk);
                    if t.as_str().unicode_len() > 0 {
                        if str_eq(elem.as_str(), "name") {
                            cur_name = t;
                        } else if str_eq(elem.as_str(), "time") {
                            cur_time = t;
                        }
                    } else {
                        proof {
                            assert(t@ =~= Seq::<char>::empty());
                        }
                    }
                }
                in_tag = true;
                seg_start = i + 1;
                proof {
                    assert(s@.subrange(i + 1, i + 1) =~= Seq::<char>::empty());
                }
            } else {
                proof {
                    assert(s@.subrange(seg_start as int, i + 1) =~= s@.subrange(
                        seg_start as int,
                        i as int,
                    ).push(s@[i as int]));
                }
            }
        } else {
            if c == '>' {
                let tag = s.substring_char(seg_start, i);
                let tl = tag.unicode_len();
                if tl > 0 && tag.get_char(0) == '/' {
                    let ename = tag.substring_char(1, tl);
                    if str_eq(ename, "reminder") && inside {
                        let done = Reminder { name: cur_name.clone(), time: cur_time.clone() };
                        proof {
                            crate::reminder::lemma_views_of_push(out@, done);
                        }
                        out.push(done);
                        inside = false;
                    }
                } else {
                    elem = String::from_str(tag);
                    if str_eq(tag, "reminder") {
                        inside = true;
                        cur_name = String::new();
                        cur_time = String::new();
                    }
                }
                in_tag = false;
                seg_start = i + 1;
                proof {
                    assert(s@.subrange(i + 1, i + 1) =~= Seq::<char>::empty());
                }
            } else {
                proof {
                    assert(s@.subrange(seg_start as int, i + 1) =~= s@.subrange(
                        seg_start as int,
                        i as int,
                    ).push(s@[i as int]));
                }
            }
        }
        i = i + 1;
    }
    proof {
        assert(s@.take(n as int) =~= s@);
    }
    if in_tag {
        Err(ParseError::UnclosedTag)
    } else {
        Ok(out)
    }
}

/// Running a concatenation is running the two parts in turn.
pub proof fn lemma_run_append(st: ParserState, a: Seq<char>, b: Seq<char>)
    ensures
        run(st, a + b) == run(run(st, a), b),
    decreases a.len(),
{
    if a.len() == 0 {
        assert(a + b =~= b);
    } else {
        assert((a + b).drop_first() =~= a.drop_first() + b);
        assert((a + b)[0] == a[0]);
        lemma_run_append(step(st, a[0]), a.drop_first(), b);
    }
}

/// A field value that survives storage unchanged: free of the tag opener and
/// stable under trimming.
pub open spec fn clean_field(s: Seq<char>) -> bool {
    &&& forall|i: int| 0 <= i < s.len() ==> s[i] != '<'
    &&& trimmed(s) == s
}

/// A parser state between stored elements: outside any tag and any reminder,
/// with only whitespace pending.
pub open spec fn between_elements(st: ParserState) -> bool {
    &&& !st.in_tag
    &&& !st.inside
    &&& ws_only(st.text)
}

/// A run of character data only grows the pending text.
proof fn lemma_run_text(st: ParserState, t: Seq<char>)
    requires
        !st.in_tag,
        forall|i: int| 0 <= i < t.len() ==> t[i] != '<',
    ensures
        run(st, t) == (ParserState { text: st.text + t, ..st }),
    decreases t.len(),
{
    if t.len() == 0 {
        assert(st.text + t =~= st.text);
    } else {
        let st1 = step(st, t[0]);
        assert(st1 == (ParserState { text: st.text.push(t[0]), ..st }));
        lemma_run_text(st1, t.drop_first());
        assert(st.text.push(t[0]) + t.drop_first() =~= st.text + t);
    }
}

/// A run of tag characters only grows the pending tag body.
proof fn lemma_run_tag_body(st: ParserState, t: Seq<char>)
    requires
        st.in_tag,
        forall|i: int| 0 <= i < t.len() ==> t[i] != '>',
    ensures
        run(st, t) == (ParserState { tag: st.tag + t, ..st }),
    decreases t.len(),
{
    if t.len() == 0 {
        assert(st.tag + t =~= st.tag);
    } else {
        let st1 = step(st, t[0]);
        assert(st1 == (ParserState { tag: st.tag.push(t[0]), ..st }));
        lemma_run_tag_body(st1, t.drop_first());
        assert(st.tag.push(t[0]) + t.drop_first() =~= st.tag + t);
    }
}

/// A one-character input is one step.
proof fn lemma_run_single(st: ParserState, s: Seq<char>, c: char)
    requires
        s.len() == 1,
        s[0] == c,
    ensures
        run(st, s) == step(st, c),
{
    assert(s.drop_first() =~= Seq::<char>::empty());
    assert(run(step(st, c), Seq::<char>::empty()) == step(st, c));
}

/// The stored literals around one entry, cut at every tag boundary.
proof fn lemma_entry_lit_splits()
    ensures
        "  <reminder>\n    <name>"@ == "  "@ + "<"@ + "reminder"@ + ">"@ + "\n    "@ + "<"@
            + "name"@ + ">"@,
        "</name>\n    <time>"@ == "<"@ + "/name"@ + ">"@ + "\n    "@ + "<"@ + "time"@ + ">"@,
        "</time>\n  </reminder>\n"@ == "<"@ + "/time"@ + ">"@ + "\n  "@ + "<"@ + "/reminder"@
            + ">"@ + "\n"@,
        "<reminders>\n"@ == "<"@ + "reminders"@ + ">"@ + "\n"@,
        "</reminders>\n"@ == "<"@ + "/reminders"@ + ">"@ + "\n"@,
{
    reveal_strlit("  <reminder>\n    <name>");
    reveal_strlit("</name>\n    <time>");
    reveal_strlit("</time>\n  </reminder>\n");
    reveal_strlit("<reminders>\n");
    reveal_strlit("</reminders>\n");
    reveal_strlit("  ");
    reveal_strlit("<");
    reveal_strlit(">");
    reveal_strlit("\n    ");
    reveal_strlit("\n  ");
    reveal_strlit("\n");
    reveal_strlit("reminder");
    reveal_strlit("reminders");
    reveal_strlit("/reminder");
    reveal_strlit("/reminders");
    reveal_strlit("name");
    reveal_strlit("/name");
    reveal_strlit("time");
    reveal_strlit("/time");
    assert("  <reminder>\n    <name>"@ =~= "  "@ + "<"@ + "reminder"@ + ">"@ + "\n    "@ + "<"@
        + "name"@ + ">"@);
    assert("</name>\n    <time>"@ =~= "<"@ + "/name"@ + ">"@ + "\n    "@ + "<"@ + "time"@
        + ">"@);
    assert("</time>\n  </reminder>\n"@ =~= "<"@ + "/time"@ + ">"@ + "\n  "@ + "<"@
        + "/reminder"@ + ">"@ + "\n"@);
    assert("<reminders>\n"@ =~= "<"@ + "reminders"@ + ">"@ + "\n"@);
    assert("</reminders>\n"@ =~= "<"@ + "/reminders"@ + ">"@ + "\n"@);
}

/// Character-level facts about the stored literals: the angle brackets, the
/// whitespace runs, and the tag bodies with their names.
proof fn lemma_markup_lits()
    ensures
        "<"@.len() == 1 && "<"@[0] == '<',
        ">"@.len() == 1 && ">"@[0] == '>',
        ws_only("  "@) && ws_only("\n    "@) && ws_only("\n  "@) && ws_only("\n"@),
        forall|i: int| 0 <= i < "  "@.len() ==> "  "@[i] != '<',
        forall|i: int| 0 <= i < "\n    "@.len() ==> "\n    "@[i] != '<',
        forall|i: int| 0 <= i < "\n  "@.len() ==> "\n  "@[i] != '<',
        forall|i: int| 0 <= i < "\n"@.len() ==> "\n"@[i] != '<',
        forall|i: int| 0 <= i < "reminder"@.len() ==> "reminder"@[i] != '>',
        forall|i: int| 0 <= i < "reminders"@.len() ==> "reminders"@[i] != '>',
        forall|i: int| 0 <= i < "name"@.len() ==> "name"@[i] != '>',
        forall|i: int| 0 <= i < "time"@.len() ==> "time"@[i] != '>',
        forall|i: int| 0 <= i < "/name"@.len() ==> "/name"@[i] != '>',
        forall|i: int| 0 <= i < "/time"@.len() ==> "/time"@[i] != '>',
        forall|i: int| 0 <= i < "/reminder"@.len() ==> "/reminder"@[i] != '>',
        forall|i: int| 0 <= i < "/reminders"@.len() ==> "/reminders"@[i] != '>',
        "reminder"@.len() == 8 && "reminder"@[0] == 'r',
        "reminders"@.len() == 9 && "reminders"@[0] == 'r',
        "name"@.len() == 4 && "name"@[0] == 'n',
        "time"@.len() == 4 && "time"@[0] == 't',
        "/name"@.len() == 5 && "/name"@[0] == '/' && "/name"@.subrange(1, 5) == "name"@,
        "/time"@.len() == 5 && "/time"@[0] == '/' && "/time"@.subrange(1, 5) == "time"@,
        "/reminder"@.len() == 9 && "/reminder"@[0] == '/' && "/reminder"@.subrange(1, 9)
            == "reminder"@,
        "/reminders"@.len() == 10 && "/reminders"@[0] == '/' && "/reminders"@.subrange(1, 10)
            == "reminders"@,
        "name"@ != "reminder"@ && "time"@ != "reminder"@ && "time"@ != "name"@ && "reminders"@
            != "reminder"@,
{
    reveal_strlit("<");
    reveal_strlit(">");
    reveal_strlit("  ");
    reveal_strlit("\n    ");
    reveal_strlit("\n  ");
    reveal_strlit("\n");
    reveal_strlit("reminder");
    reveal_strlit("reminders");
    reveal_strlit("name");
    reveal_strlit("time");
    reveal_strlit("/name");
    reveal_strlit("/time");
    reveal_strlit("/reminder");
    reveal_strlit("/reminders");
    assert("/name"@.subrange(1, 5) =~= "name"@);
    assert("/time"@.subrange(1, 5) =~= "time"@);
    assert("/reminder"@.subrange(1, 9) =~= "reminder"@);
    assert("/reminders"@.subrange(1, 10) =~= "reminders"@);
    assert("name"@[0] == 'n' && "reminder"@[0] == 'r');
    assert("time"@[0] == 't');
}

/// One stored entry, read from between elements, appends exactly its
/// reminder and lands between elements again.
#[verifier::rlimit(100)]
proof fn lemma_run_entry(st: ParserState, nm: Seq<char>, tm: Seq<char>)
    requires
        between_elements(st),
        clean_field(nm),
        clean_field(tm),
    ensures
        ({
            let st2 = run(st, spec_render_entry(RemView { name: nm, time: tm }));
            &&& between_elements(st2)
            &&& st2.acc == st.acc.push(RemView { name: nm, time: tm })
        }),
{
    lemma_entry_lit_splits();
    lemma_markup_lits();
    let rem = RemView { name: nm, time: tm };
    let sa = "  <reminder>\n    <name>"@;
    let sb = "</name>\n    <time>"@;
    let sc = "</time>\n  </reminder>\n"@;
    let e = spec_render_entry(rem);
    assert(e == sa + nm + sb + tm + sc);
    // The opening literal, piece by piece.
    lemma_run_text(st, "  "@);
    let t1 = run(st, "  "@);
    crate::text::lemma_ws_only_concat(st.text, "  "@);
    lemma_trimmed_ws_only(t1.text);
    lemma_run_single(t1, "<"@, '<');
    let t2 = run(t1, "<"@);
    assert(t2 =~= (ParserState { in_tag: true, text: Seq::empty(), tag: Seq::empty(), ..st }));
    lemma_run_tag_body(t2, "reminder"@);
    let t3 = run(t2, "reminder"@);
    assert(t3.tag =~= "reminder"@);
    lemma_run_single(t3, ">"@, '>');
    let t4 = run(t3, ">"@);
    assert(t4 =~= (ParserState {
        in_tag: false,
        text: Seq::empty(),
        tag: Seq::empty(),
        elem: "reminder"@,
        inside: true,
        cur_name: Seq::empty(),
        cur_time: Seq::empty(),
        acc: st.acc,
    }));
    lemma_run_text(t4, "\n    "@);
    let t5 = run(t4, "\n    "@);
    assert(ws_only(t5.text)) by {
        assert(t5.text =~= "\n    "@);
    }
    lemma_trimmed_ws_only(t5.text);
    lemma_run_single(t5, "<"@, '<');
    let t6 = run(t5, "<"@);
    assert(t6 =~= (ParserState { in_tag: true, text: Seq::empty(), tag: Seq::empty(), ..t5 }));
    lemma_run_tag_body(t6, "name"@);
    let t7 = run(t6, "name"@);
    assert(t7.tag =~= "name"@);
    lemma_run_single(t7, ">"@, '>');
    let t8 = run(t7, ">"@);
    assert(t8 =~= (ParserState {
        in_tag: false,
        text: Seq::empty(),
        tag: Seq::empty(),
        elem: "name"@,
        inside: true,
        cur_name: Seq::empty(),
        cur_time: Seq::empty(),
        acc: st.acc,
    }));
    lemma_run_append(st, "  "@, "<"@);
    lemma_run_append(st, "  "@ + "<"@, "reminder"@);
    lemma_run_append(st, "  "@ + "<"@ + "reminder"@, ">"@);
    lemma_run_append(st, "  "@ + "<"@ + "reminder"@ + ">"@, "\n    "@);
    lemma_run_append(st, "  "@ + "<"@ + "reminder"@ + ">"@ + "\n    "@, "<"@);
    lemma_run_append(st, "  "@ + "<"@ + "reminder"@ + ">"@ + "\n    "@ + "<"@, "name"@);
    lemma_run_append(st, "  "@ + "<"@ + "reminder"@ + ">"@ + "\n    "@ + "<"@ + "name"@, ">"@);
    assert(run(st, sa) == t8);
    // The name field.
    lemma_run_text(t8, nm);
    let t9 = run(t8, nm);
    assert(t9.text =~= nm);
    // The middle literal.
    lemma_run_single(t9, "<"@, '<');
    let t10 = run(t9, "<"@);
    assert(flush_text(t9) =~= (ParserState { cur_name: nm, ..t9 })) by {
        if trimmed(t9.text) == Seq::<char>::empty() {
            assert(nm =~= Seq::<char>::empty());
        }
    }
    assert(t10 =~= (ParserState {
        in_tag: true,
        text: Seq::empty(),
        tag: Seq::empty(),
        elem: "name"@,
        inside: true,
        cur_name: nm,
        cur_time: Seq::empty(),
        acc: st.acc,
    }));
    lemma_run_tag_body(t10, "/name"@);
    let t11 = run(t10, "/name"@);
    assert(t11.tag =~= "/name"@);
    lemma_run_single(t11, ">"@, '>');
    let t12 = run(t11, ">"@);
    assert(t12 =~= (ParserState { in_tag: false, text: Seq::empty(), tag: Seq::empty(), ..t11 }));
    lemma_run_text(t12, "\n    "@);
    let t13 = run(t12, "\n    "@);
    assert(ws_only(t13.text)) by {
        assert(t13.text =~= "\n    "@);
    }
    lemma_trimmed_ws_only(t13.text);
    lemma_run_single(t13, "<"@, '<');
    let t14 = run(t13, "<"@);
    assert(t14 =~= (ParserState { in_tag: true, text: Seq::empty(), tag: Seq::empty(), ..t13 }));
    lemma_run_tag_body(t14, "time"@);
    let t15 = run(t14, "time"@);
    assert(t15.tag =~= "time"@);
    lemma_run_single(t15, ">"@, '>');
    let t16 = run(t15, ">"@);
    assert(t16 =~= (ParserState {
        in_tag: false,
        text: Seq::empty(),
        tag: Seq::empty(),
        elem: "time"@,
        inside: true,
        cur_name: nm,
        cur_time: Seq::empty(),
        acc: st.acc,
    }));
    lemma_run_append(t9, "<"@, "/name"@);
    lemma_run_append(t9, "<"@ + "/name"@, ">"@);
    lemma_run_append(t9, "<"@ + "/name"@ + ">"@, "\n    "@);
    lemma_run_append(t9, "<"@ + "/name"@ + ">"@ + "\n    "@, "<"@);
    lemma_run_append(t9, "<"@ + "/name"@ + ">"@ + "\n    "@ + "<"@, "time"@);
    lemma_run_append(t9, "<"@ + "/name"@ + ">"@ + "\n    "@ + "<"@ + "time"@, ">"@);
    assert(run(t9, sb) == t16);
    // The time field.
    lemma_run_text(t16, tm);
    let t17 = run(t16, tm);
    assert(t17.text =~= tm);
    // The closing literal.
    lemma_run_single(t17, "<"@, '<');
    let t18 = run(t17, "<"@);
    assert(flush_text(t17) =~= (ParserState { cur_time: tm, ..t17 })) by {
        if trimmed(t17.text) == Seq::<char>::empty() {
            assert(tm =~= Seq::<char>::empty());
        }
    }
    assert(t18 =~= (ParserState {
        in_tag: true,
        text: Seq::empty(),
        tag: Seq::empty(),
        elem: "time"@,
        inside: true,
        cur_name: nm,
        cur_time: tm,
        acc: st.acc,
    }));
    lemma_run_tag_body(t18, "/time"@);
    let t19 = run(t18, "/time"@);
    assert(t19.tag =~= "/time"@);
    lemma_run_single(t19, ">"@, '>');
    let t20 = run(t19, ">"@);
    assert(t20 =~= (ParserState { in_tag: false, text: Seq::empty(), tag: Seq::empty(), ..t19 }));
    lemma_run_text(t20, "\n  "@);
    let t21 = run(t20, "\n  "@);
    assert(ws_only(t21.text)) by {
        assert(t21.text =~= "\n  "@);
    }
    lemma_trimmed_ws_only(t21.text);
    lemma_run_single(t21, "<"@, '<');
    let t22 = run(t21, "<"@);
    assert(t22 =~= (ParserState { in_tag: true, text: Seq::empty(), tag: Seq::empty(), ..t21 }));
    lemma_run_tag_body(t22, "/reminder"@);
    let t23 = run(t22, "/reminder"@);
    assert(t23.tag =~= "/reminder"@);
    lemma_run_single(t23, ">"@, '>');
    let t24 = run(t23, ">"@);
    assert(t24 =~= (ParserState {
        in_tag: false,
        text: Seq::empty(),
        tag: Seq::empty(),
        elem: "time"@,
        inside: false,
        cur_name: nm,
        cur_time: tm,
        acc: st.acc.push(rem),
    }));
    lemma_run_text(t24, "\n"@);
    let t25 = run(t24, "\n"@);
    assert(ws_only(t25.text)) by {
        assert(t25.text =~= "\n"@);
    }
    lemma_run_append(t17, "<"@, "/time"@);
    lemma_run_append(t17, "<"@ + "/time"@, ">"@);
    lemma_run_append(t17, "<"@ + "/time"@ + ">"@, "\n  "@);
    lemma_run_append(t17, "<"@ + "/time"@ + ">"@ + "\n  "@, "<"@);
    lemma_run_append(t17, "<"@ + "/time"@ + ">"@ + "\n  "@ + "<"@, "/reminder"@);
    lemma_run_append(t17, "<"@ + "/time"@ + ">"@ + "\n  "@ + "<"@ + "/reminder"@, ">"@);
    lemma_run_append(t17, "<"@ + "/time"@ + ">"@ + "\n  "@ + "<"@ + "/reminder"@ + ">"@, "\n"@);
    assert(run(t17, sc) == t25);
    // The whole entry.
    lemma_run_append(st, sa, nm);
    lemma_run_append(st, sa + nm, sb);
    lemma_run_append(st, sa + nm + sb, tm);
    lemma_run_append(st, sa + nm + sb + tm, sc);
    assert(run(st, e) == t25);
}

/// The opening of the store document leaves the parser between elements with
/// nothing collected.
proof fn lemma_run_header()
    ensures
        ({
            let st = run(init_state(), "<reminders>\n"@);
            &&& between_elements(st)
            &&& st.acc == Seq::<RemView>::empty()
        }),
{
    lemma_entry_lit_splits();
    lemma_markup_lits();
    let st0 = init_state();
    lemma_run_single(st0, "<"@, '<');
    let t1 = run(st0, "<"@);
    assert(t1 =~= (ParserState { in_tag: true, text: Seq::empty(), tag: Seq::empty(), ..st0 }));
    lemma_run_tag_body(t1, "reminders"@);
    let t2 = run(t1, "reminders"@);
    assert(t2.tag =~= "reminders"@);
    lemma_run_single(t2, ">"@, '>');
    let t3 = run(t2, ">"@);
    assert(t3 =~= (ParserState {
        in_tag: false,
        text: Seq::empty(),
        tag: Seq::empty(),
        elem: "reminders"@,
        inside: false,
        cur_name: Seq::empty(),
        cur_time: Seq::empty(),
        acc: Seq::empty(),
    }));
    lemma_run_text(t3, "\n"@);
    let t4 = run(t3, "\n"@);
    assert(ws_only(t4.text)) by {
        assert(t4.text =~= "\n"@);
    }
    lemma_run_append(st0, "<"@, "reminders"@);
    lemma_run_append(st0, "<"@ + "reminders"@, ">"@);
    lemma_run_append(st0, "<"@ + "reminders"@ + ">"@, "\n"@);
    assert(run(st0, "<reminders>\n"@) == t4);
}

/// The closing of the store document leaves the parser outside any tag with
/// its collection untouched.
proof fn lemma_run_footer(st: ParserState)
    requires
        between_elements(st),
    ensures
        ({
            let st2 = run(st, "</reminders>\n"@);
            &&& !st2.in_tag
            &&& st2.acc == st.acc
        }),
{
    lemma_entry_lit_splits();
    lemma_markup_lits();
    lemma_run_single(st, "<"@, '<');
    let t1 = run(st, "<"@);
    assert(t1 =~= (ParserState { in_tag: true, text: Seq::empty(), tag: Seq::empty(), ..st }));
    lemma_run_tag_body(t1, "/reminders"@);
    let t2 = run(t1, "/reminders"@);
    assert(t2.tag =~= "/reminders"@);
    lemma_run_single(t2, ">"@, '>');
    let t3 = run(t2, ">"@);
    assert(t3 =~= (ParserState { in_tag: false, text: Seq::empty(), tag: Seq::empty(), ..t2 }));
    lemma_run_text(t3, "\n"@);
    let t4 = run(t3, "\n"@);
    lemma_run_append(st, "<"@, "/reminders"@);
    lemma_run_append(st, "<"@ + "/reminders"@, ">"@);
    lemma_run_append(st, "<"@ + "/reminders"@ + ">"@, "\n"@);
    assert(run(st, "</reminders>\n"@) == t4);
}

/// A run of stored entries, read from between elements, appends exactly its
/// reminders in order.
proof fn lemma_run_entries(st: ParserState, rs: Seq<RemView>)
    requires
        between_elements(st),
        forall|i: int|
            0 <= i < rs.len() ==> clean_field(#[trigger] rs[i].name) && clean_field(rs[i].time),
    ensures
        ({
            let st2 = run(st, spec_render_entries(rs));
            &&& between_elements(st2)
            &&& st2.acc == st.acc + rs
        }),
    decreases rs.len(),
{
    if rs.len() == 0 {
        assert(st.acc + rs =~= st.acc);
    } else {
        lemma_run_append(st, spec_render_entry(rs[0]), spec_render_entries(rs.drop_first()));
        lemma_run_entry(st, rs[0].name, rs[0].time);
        assert(RemView { name: rs[0].name, time: rs[0].time } =~= rs[0]);
        let st1 = run(st, spec_render_entry(rs[0]));
        assert(forall|i: int|
            0 <= i < rs.drop_first().len() ==> clean_field(#[trigger] rs.drop_first()[i].name)
                && clean_field(rs.drop_first()[i].time)) by {
            assert(forall|i: int|
                0 <= i < rs.drop_first().len() ==> rs.drop_first()[i] == rs[i + 1]);
        }
        lemma_run_entries(st1, rs.drop_first());
        assert(st.acc.push(rs[0]) + rs.drop_first() =~= st.acc + rs);
    }
}

/// Round-trip law of the persistence store: saving any collection and
/// loading it back reproduces the same sequence of name and time pairs in
/// the same order, provided every field is free of the tag opener and
/// carries no leading or trailing whitespace.
pub proof fn lemma_save_load_round_trip(rs: Seq<RemView>)
    requires
        forall|i: int|
            0 <= i < rs.len() ==> clean_field(#[trigger] rs[i].name) && clean_field(rs[i].time),
    ensures
        spec_parse(spec_render(rs)) == Some(rs),
{
    lemma_run_append(init_state(), "<reminders>\n"@, spec_render_entries(rs));
    lemma_run_append(
        init_state(),
        "<reminders>\n"@ + spec_render_entries(rs),
        "</reminders>\n"@,
    );
    lemma_run_header();
    let st1 = run(init_state(), "<reminders>\n"@);
    lemma_run_entries(st1, rs);
    let st2 = run(st1, spec_render_entries(rs));
    lemma_run_footer(st2);
    assert(Seq::<RemView>::empty() + rs =~= rs);
}

} // verus!
