//! Cache Store codec: renders a scanned skill list as its JSON cache text
//! and parses such text back. Rendering and parsing are exact inverses, so
//! a cache written and read back yields the same records; readers then
//! recompute each record's `is_installed` flag.
//!
//! The parser accepts exactly the canonical text this renderer produces;
//! any other side-file content reads as "no cache", on which callers fall
//! back to a live scan.

use vstd::prelude::*;
use vstd::string::StrSliceExecFns;
use crate::models::{Skill, SkillView, skills_view, opt_text_view};
use crate::strutil::{chars_of, match_at, match_here, string_from_chars};

verus! {

/// The escape of one character inside a JSON string literal.
pub open spec fn esc_char(c: char) -> Seq<char> {
    if c == '"' {
        seq!['\\', '"']
    } else if c == '\\' {
        seq!['\\', '\\']
    } else if c == '\n' {
        seq!['\\', 'n']
    } else if c == '\r' {
        seq!['\\', 'r']
    } else if c == '\t' {
        seq!['\\', 't']
    } else {
        seq![c]
    }
}

/// The escaped body of a JSON string literal.
pub open spec fn esc(s: Seq<char>) -> Seq<char>
    decreases s.len(),
{
    if s.len() == 0 {
        Seq::empty()
    } else {
        esc_char(s[0]) + esc(s.drop_first())
    }
}

/// The character an escape code stands for.
pub open spec fn unesc_code(c: char) -> Option<char> {
    if c == '"' {
        Some('"')
    } else if c == '\\' {
        Some('\\')
    } else if c == 'n' {
        Some('\n')
    } else if c == 'r' {
        Some('\r')
    } else if c == 't' {
        Some('\t')
    } else {
        None
    }
}

/// Parses a string-literal body up to and including its closing quote,
/// returning the unescaped text and the remaining input.
pub open spec fn p_str(s: Seq<char>) -> Option<(Seq<char>, Seq<char>)>
    decreases s.len(),
{
    if s.len() == 0 {
        None
    } else if s[0] == '"' {
        Some((Seq::empty(), s.drop_first()))
    } else if s[0] == '\\' {
        if s.len() < 2 {
            None
        } else {
            match unesc_code(s[1]) {
                Some(u) => match p_str(s.skip(2)) {
                    Some(p) => Some((seq![u] + p.0, p.1)),
                    None => None,
                },
                None => None,
            }
        }
    } else {
        match p_str(s.drop_first()) {
            Some(p) => Some((seq![s[0]] + p.0, p.1)),
            None => None,
        }
    }
}

/// Escaping then reading a string body back is the identity: the parser
/// returns exactly the original text and leaves exactly the trailing input.
pub proof fn lemma_p_str_round(s: Seq<char>, rest: Seq<char>)
    ensures
        p_str(esc(s) + seq!['"'] + rest) == Some((s, rest)),
    decreases s.len(),
{
    if s.len() == 0 {
        assert(esc(s) + seq!['"'] + rest =~= seq!['"'] + rest);
        let inp = seq!['"'] + rest;
        assert(inp[0] == '"');
        assert(inp.drop_first() =~= rest);
    } else {
        let c = s[0];
        let tail_inp = esc(s.drop_first()) + seq!['"'] + rest;
        lemma_p_str_round(s.drop_first(), rest);
        let inp = esc(s) + seq!['"'] + rest;
        assert(inp =~= esc_char(c) + tail_inp);
        if c == '"' || c == '\\' || c == '\n' || c == '\r' || c == '\t' {
            assert(inp[0] == '\\');
            assert(inp.len() >= 2);
            assert(unesc_code(inp[1]) == Some(c));
            assert(inp.skip(2) =~= tail_inp);
            assert(seq![c] + s.drop_first() =~= s);
        } else {
            assert(inp[0] == c);
            assert(c != '"' && c != '\\');
            assert(inp.drop_first() =~= tail_inp);
            assert(seq![c] + s.drop_first() =~= s);
        }
    }
}

/// Consumes an exact literal prefix.
pub open spec fn p_lit(s: Seq<char>, lit: Seq<char>) -> Option<Seq<char>> {
    if lit.len() <= s.len() && s.take(lit.len() as int) == lit {
        Some(s.skip(lit.len() as int))
    } else {
        None
    }
}

/// A literal prefix always reads back off the front of what it was put on.
pub proof fn lemma_p_lit_round(lit: Seq<char>, rest: Seq<char>)
    ensures
        p_lit(lit + rest, lit) == Some(rest),
{
    assert((lit + rest).take(lit.len() as int) =~= lit);
    assert((lit + rest).skip(lit.len() as int) =~= rest);
}

/// Appends the escaped characters of `s`.
fn escape_into(out: &mut Vec<char>, s: &str)
    ensures
        final(out)@ == old(out)@ + esc(s@),
{
    let cv = chars_of(s);
    let ghost base = out@;
    let n: usize = cv.len();
    proof {
        assert(cv@.skip(0) =~= cv@);
    }
    let mut i: usize = 0;
    while i < n
        invariant
            i <= n,
            n == cv@.len(),
            base + esc(cv@) == out@ + esc(cv@.skip(i as int)),
        decreases n - i,
    {
        let c = cv[i];
        let ghost out0 = out@;
        if c == '"' {
            out.push('\\');
            out.push('"');
        } else if c == '\\' {
            out.push('\\');
            out.push('\\');
        } else if c == '\n' {
            out.push('\\');
            out.push('n');
        } else if c == '\r' {
            out.push('\\');
            out.push('r');
        } else if c == '\t' {
            out.push('\\');
            out.push('t');
        } else {
            out.push(c);
        }
        proof {
            assert(out@ =~= out0 + esc_char(cv@[i as int]));
            assert(cv@.skip(i as int)[0] == cv@[i as int]);
            assert(cv@.skip(i as int).drop_first() =~= cv@.skip(i + 1 as int));
            assert(esc(cv@.skip(i as int)) == esc_char(cv@[i as int]) + esc(
                cv@.skip(i + 1 as int),
            ));
            assert(out0 + (esc_char(cv@[i as int]) + esc(cv@.skip(i + 1 as int))) =~= (out0
                + esc_char(cv@[i as int])) + esc(cv@.skip(i + 1 as int)));
        }
        i = i + 1;
    }
    proof {
        assert(cv@.skip(n as int) =~= Seq::<char>::empty());
        assert(esc(cv@.skip(n as int)) =~= Seq::<char>::empty());
        assert(out@ + Seq::<char>::empty() =~= out@);
        assert(base + esc(cv@) =~= out@);
    }
}

/// Appends a literal.
fn push_lit(out: &mut Vec<char>, lit: &str)
    ensures
        final(out)@ == old(out)@ + lit@,
{
    let cv = chars_of(lit);
    let ghost base = out@;
    let mut i: usize = 0;
    while i < cv.len()
        invariant
            i <= cv@.len(),
            cv@ == lit@,
            out@ == base + cv@.take(i as int),
        decreases cv@.len() - i,
    {
        out.push(cv[i]);
        proof {
            assert(base + cv@.take(i + 1 as int) =~= (base + cv@.take(i as int)).push(
                cv@[i as int],
            ));
        }
        i = i + 1;
    }
    proof {
        assert(cv@.take(cv@.len() as int) =~= cv@);
    }
}

/// Reads a literal at position `i`, giving the position just past it.
fn parse_lit(v: &Vec<char>, i: usize, lit: &Vec<char>) -> (r: Option<usize>)
    requires
        i <= v@.len(),
    ensures
        match r {
            Some(j) => i <= j <= v@.len() && p_lit(v@.skip(i as int), lit@) == Some(
                v@.skip(j as int),
            ),
            None => p_lit(v@.skip(i as int), lit@) is None,
        },
{
    if match_here(v, lit, i) {
        let n: usize = v.len();
        proof {
            assert(n == v@.len());
            assert(v@.skip(i as int).take(lit@.len() as int) =~= v@.subrange(
                i as int,
                i + lit@.len(),
            ));
            assert(v@.skip(i as int).skip(lit@.len() as int) =~= v@.skip(i + lit@.len()));
        }
        Some(i + lit.len())
    } else {
        proof {
            if p_lit(v@.skip(i as int), lit@) is Some {
                assert(v@.skip(i as int).take(lit@.len() as int) =~= v@.subrange(
                    i as int,
                    i + lit@.len(),
                ));
                assert(match_at(v@, lit@, i as int));
            }
        }
        None
    }
}

/// Reads a string-literal body from position `i` through its closing quote.
fn parse_str(v: &Vec<char>, i: usize) -> (r: Option<(Vec<char>, usize)>)
    requires
        i <= v@.len(),
    ensures
        match r {
            Some(p) => i <= p.1 <= v@.len() && p_str(v@.skip(i as int)) == Some(
                (p.0@, v@.skip(p.1 as int)),
            ),
            None => p_str(v@.skip(i as int)) is None,
        },
    decreases v@.len() - i,
{
    if i == v.len() {
        proof {
            assert(v@.skip(i as int).len() == 0);
        }
        return None;
    }
    let c = v[i];
    proof {
        assert(v@.skip(i as int)[0] == v@[i as int]);
        assert(v@.skip(i as int).drop_first() =~= v@.skip(i + 1 as int));
    }
    if c == '"' {
        let empty: Vec<char> = Vec::new();
        proof {
            assert(empty@ =~= Seq::<char>::empty());
        }
        return Some((empty, i + 1));
    }
    if c == '\\' {
        if i + 1 == v.len() {
            proof {
                assert(v@.skip(i as int).len() < 2);
            }
            return None;
        }
        let code = v[i + 1];
        proof {
            assert(v@.skip(i as int)[1] == v@[i + 1 as int]);
            assert(v@.skip(i as int).skip(2) =~= v@.skip(i + 2 as int));
        }
        let u: char = if code == '"' {
            '"'
        } else if code == '\\' {
            '\\'
        } else if code == 'n' {
            '\n'
        } else if code == 'r' {
            '\r'
        } else if code == 't' {
            '\t'
        } else {
            proof {
                assert(unesc_code(v@[i + 1 as int]) is None);
            }
            return None;
        };
        match parse_str(v, i + 2) {
            Some(p) => {
                let mut body = p.0;
                let mut outv: Vec<char> = Vec::new();
                outv.push(u);
                outv.append(&mut body);
                proof {
                    assert(outv@ =~= seq![u] + p.0@);
                }
                return Some((outv, p.1));
            },
            None => {
                return None;
            },
        }
    }
    match parse_str(v, i + 1) {
        Some(p) => {
            let mut body = p.0;
            let mut outv: Vec<char> = Vec::new();
            outv.push(c);
            outv.append(&mut body);
            proof {
                assert(outv@ =~= seq![v@[i as int]] + p.0@);
            }
            Some((outv, p.1))
        },
        None => None,
    }
}

/// The opening of a record and its first field label.
pub open spec fn lab_id() -> Seq<char> {
    "{\"id\":\""@
}

/// Field labels between values; each begins after the previous value's
/// closing quote.
pub open spec fn lab_name() -> Seq<char> {
    ",\"name\":\""@
}

pub open spec fn lab_desc() -> Seq<char> {
    ",\"description\":\""@
}

pub open spec fn lab_owner() -> Seq<char> {
    ",\"owner\":\""@
}

pub open spec fn lab_repo() -> Seq<char> {
    ",\"repo\":\""@
}

pub open spec fn lab_spath() -> Seq<char> {
    ",\"skillsPath\":\""@
}

pub open spec fn lab_path() -> Seq<char> {
    ",\"path\":\""@
}

pub open spec fn lab_content() -> Seq<char> {
    ",\"content\":"@
}

pub open spec fn lab_inst() -> Seq<char> {
    ",\"isInstalled\":"@
}

pub open spec fn lab_fetch() -> Seq<char> {
    ",\"isFetched\":"@
}

pub open spec fn lit_true() -> Seq<char> {
    "true"@
}

pub open spec fn lit_false() -> Seq<char> {
    "false"@
}

pub open spec fn lit_null() -> Seq<char> {
    "null"@
}

/// A rendered string value and its closing quote, continued by `tail`.
pub open spec fn vstr(s: Seq<char>, tail: Seq<char>) -> Seq<char> {
    esc(s) + (seq!['"'] + tail)
}

/// A rendered optional text value, continued by `tail`.
pub open spec fn vopt(c: Option<Seq<char>>, tail: Seq<char>) -> Seq<char> {
    match c {
        Option::Some(s) => seq!['"'] + vstr(s, tail),
        Option::None => lit_null() + tail,
    }
}

/// A rendered boolean, continued by `tail`.
pub open spec fn vbool(b: bool, tail: Seq<char>) -> Seq<char> {
    if b {
        lit_true() + tail
    } else {
        lit_false() + tail
    }
}

/// One rendered record, continued by `tail`, nested the way the parser
/// consumes it.
pub open spec fn render_record_onto(sv: SkillView, tail: Seq<char>) -> Seq<char> {
    lab_id() + vstr(
        sv.id,
        lab_name() + vstr(
            sv.name,
            lab_desc() + vstr(
                sv.description,
                lab_owner() + vstr(
                    sv.owner,
                    lab_repo() + vstr(
                        sv.repo,
                        lab_spath() + vstr(
                            sv.skills_path,
                            lab_path() + vstr(
                                sv.path,
                                lab_content() + vopt(
                                    sv.content,
                                    lab_inst() + vbool(
                                        sv.is_installed,
                                        lab_fetch() + vbool(
                                            sv.is_fetched,
                                            seq!['}'] + tail,
                                        ),
                                    ),
                                ),
                            ),
                        ),
                    ),
                ),
            ),
        ),
    )
}

/// A rendered optional text value on its own.
pub open spec fn render_opt(c: Option<Seq<char>>) -> Seq<char> {
    match c {
        Option::Some(s) => seq!['"'] + esc(s) + seq!['"'],
        Option::None => lit_null(),
    }
}

/// A rendered boolean on its own.
pub open spec fn render_bool(b: bool) -> Seq<char> {
    if b {
        lit_true()
    } else {
        lit_false()
    }
}

/// One rendered record on its own: the text the renderer emits.
pub open spec fn render_record(sv: SkillView) -> Seq<char> {
    lab_id() + esc(sv.id) + seq!['"'] + (lab_name() + esc(sv.name) + seq!['"'] + (lab_desc()
        + esc(sv.description) + seq!['"'] + (lab_owner() + esc(sv.owner) + seq!['"'] + (lab_repo()
        + esc(sv.repo) + seq!['"'] + (lab_spath() + esc(sv.skills_path) + seq!['"'] + (lab_path()
        + esc(sv.path) + seq!['"'] + (lab_content() + render_opt(sv.content) + (lab_inst()
        + render_bool(sv.is_installed) + (lab_fetch() + render_bool(sv.is_fetched)
        + seq!['}'])))))))))
}

/// Reassociation of a three-piece prefix before a tail.
proof fn lemma_assoc4(a: Seq<char>, b: Seq<char>, c: Seq<char>, t: Seq<char>)
    ensures
        a + (b + (c + t)) == a + b + c + t,
{
    assert(a + (b + (c + t)) =~= a + b + c + t);
}

/// Reassociation of a four-piece prefix before a tail.
proof fn lemma_assoc5(a: Seq<char>, b: Seq<char>, c: Seq<char>, d: Seq<char>, t: Seq<char>)
    ensures
        a + (b + (c + (d + t))) == a + b + c + d + t,
{
    assert(a + (b + (c + (d + t))) =~= a + b + c + d + t);
}

/// A rendered boolean value splits off its continuation.
proof fn lemma_vbool_flat(b: bool, t: Seq<char>)
    ensures
        vbool(b, t) == render_bool(b) + t,
{
}

/// A rendered optional value splits off its continuation.
proof fn lemma_vopt_flat(c: Option<Seq<char>>, t: Seq<char>)
    ensures
        vopt(c, t) == render_opt(c) + t,
{
    match c {
        Option::Some(s) => {
            lemma_assoc4(seq!['"'], esc(s), seq!['"'], t);
        },
        Option::None => {},
    }
}

/// The nested and the flat renderings agree: continuing a record with
/// `tail` is the record's own text followed by `tail`.
pub proof fn lemma_record_onto(sv: SkillView, tail: Seq<char>)
    ensures
        render_record_onto(sv, tail) == render_record(sv) + tail,
{
    let g10 = lab_fetch() + render_bool(sv.is_fetched) + seq!['}'];
    let g9 = lab_inst() + render_bool(sv.is_installed) + g10;
    let g8 = lab_content() + render_opt(sv.content) + g9;
    let g7 = lab_path() + esc(sv.path) + seq!['"'] + g8;
    let g6 = lab_spath() + esc(sv.skills_path) + seq!['"'] + g7;
    let g5 = lab_repo() + esc(sv.repo) + seq!['"'] + g6;
    let g4 = lab_owner() + esc(sv.owner) + seq!['"'] + g5;
    let g3 = lab_desc() + esc(sv.description) + seq!['"'] + g4;
    let g2 = lab_name() + esc(sv.name) + seq!['"'] + g3;
    let g1 = lab_id() + esc(sv.id) + seq!['"'] + g2;
    let t10 = seq!['}'] + tail;
    let n9 = lab_fetch() + vbool(sv.is_fetched, t10);
    let n8 = lab_inst() + vbool(sv.is_installed, n9);
    let n7 = lab_content() + vopt(sv.content, n8);
    let n6 = lab_path() + vstr(sv.path, n7);
    let n5 = lab_spath() + vstr(sv.skills_path, n6);
    let n4 = lab_repo() + vstr(sv.repo, n5);
    let n3 = lab_owner() + vstr(sv.owner, n4);
    let n2 = lab_desc() + vstr(sv.description, n3);
    let n1 = lab_name() + vstr(sv.name, n2);
    lemma_vbool_flat(sv.is_fetched, t10);
    lemma_assoc4(lab_fetch(), render_bool(sv.is_fetched), seq!['}'], tail);
    assert(n9 == g10 + tail);
    lemma_vbool_flat(sv.is_installed, n9);
    lemma_assoc4(lab_inst(), render_bool(sv.is_installed), g10, tail);
    assert(n8 == g9 + tail);
    lemma_vopt_flat(sv.content, n8);
    lemma_assoc4(lab_content(), render_opt(sv.content), g9, tail);
    assert(n7 == g8 + tail);
    lemma_assoc5(lab_path(), esc(sv.path), seq!['"'], g8, tail);
    assert(n6 == g7 + tail);
    lemma_assoc5(lab_spath(), esc(sv.skills_path), seq!['"'], g7, tail);
    assert(n5 == g6 + tail);
    lemma_assoc5(lab_repo(), esc(sv.repo), seq!['"'], g6, tail);
    assert(n4 == g5 + tail);
    lemma_assoc5(lab_owner(), esc(sv.owner), seq!['"'], g5, tail);
    assert(n3 == g4 + tail);
    lemma_assoc5(lab_desc(), esc(sv.description), seq!['"'], g4, tail);
    assert(n2 == g3 + tail);
    lemma_assoc5(lab_name(), esc(sv.name), seq!['"'], g3, tail);
    assert(n1 == g2 + tail);
    lemma_assoc5(lab_id(), esc(sv.id), seq!['"'], g2, tail);
    assert(render_record_onto(sv, tail) == g1 + tail);
    assert(render_record(sv) == g1);
}

/// Parses a boolean.
pub open spec fn p_bool(s: Seq<char>) -> Option<(bool, Seq<char>)> {
    match p_lit(s, lit_true()) {
        Some(r) => Some((true, r)),
        None => match p_lit(s, lit_false()) {
            Some(r) => Some((false, r)),
            None => None,
        },
    }
}

/// Parses an optional text value: `null`, or a string literal.
pub open spec fn p_opt(s: Seq<char>) -> Option<(Option<Seq<char>>, Seq<char>)> {
    match p_lit(s, lit_null()) {
        Some(r) => Some((Option::None, r)),
        None => match p_lit(s, seq!['"']) {
            Some(r1) => match p_str(r1) {
                Some(p) => Some((Option::Some(p.0), p.1)),
                None => None,
            },
            None => None,
        },
    }
}

/// Parses one record.
pub open spec fn p_record(s: Seq<char>) -> Option<(SkillView, Seq<char>)> {
    match p_lit(s, lab_id()) {
        None => None,
        Some(s1) => match p_str(s1) {
            None => None,
            Some((id, s2)) => match p_lit(s2, lab_name()) {
                None => None,
                Some(s3) => match p_str(s3) {
                    None => None,
                    Some((name, s4)) => match p_lit(s4, lab_desc()) {
                        None => None,
                        Some(s5) => match p_str(s5) {
                            None => None,
                            Some((description, s6)) => match p_lit(s6, lab_owner()) {
                                None => None,
                                Some(s7) => match p_str(s7) {
                                    None => None,
                                    Some((owner, s8)) => match p_lit(s8, lab_repo()) {
                                        None => None,
                                        Some(s9) => match p_str(s9) {
                                            None => None,
                                            Some((repo, s10)) => p_record_rest(
                                                s10,
                                                id,
                                                name,
                                                description,
                                                owner,
                                                repo,
                                            ),
                                        },
                                    },
                                },
                            },
                        },
                    },
                },
            },
        },
    }
}

/// Parses a record's remaining fields, from `skillsPath` on.
pub open spec fn p_record_rest(
    s: Seq<char>,
    id: Seq<char>,
    name: Seq<char>,
    description: Seq<char>,
    owner: Seq<char>,
    repo: Seq<char>,
) -> Option<(SkillView, Seq<char>)> {
    match p_lit(s, lab_spath()) {
        None => None,
        Some(s1) => match p_str(s1) {
            None => None,
            Some((skills_path, s2)) => match p_lit(s2, lab_path()) {
                None => None,
                Some(s3) => match p_str(s3) {
                    None => None,
                    Some((path, s4)) => match p_lit(s4, lab_content()) {
                        None => None,
                        Some(s5) => match p_opt(s5) {
                            None => None,
                            Some((content, s6)) => match p_lit(s6, lab_inst()) {
                                None => None,
                                Some(s7) => match p_bool(s7) {
                                    None => None,
                                    Some((is_installed, s8)) => match p_lit(s8, lab_fetch()) {
                                        None => None,
                                        Some(s9) => match p_bool(s9) {
                                            None => None,
                                            Some((is_fetched, s10)) => match p_lit(
                                                s10,
                                                seq!['}'],
                                            ) {
                                                None => None,
                                                Some(s11) => Some(
                                                    (
                                                        SkillView {
                                                            id,
                                                            name,
                                                            description,
                                                            owner,
                                                            repo,
                                                            skills_path,
                                                            path,
                                                            content,
                                                            is_installed,
                                                            is_fetched,
                                                        },
                                                        s11,
                                                    ),
                                                ),
                                            },
                                        },
                                    },
                                },
                            },
                        },
                    },
                },
            },
        },
    }
}

/// A rendered string value reads back exactly.
pub proof fn lemma_p_vstr_round(s: Seq<char>, rest: Seq<char>)
    ensures
        p_str(vstr(s, rest)) == Some((s, rest)),
{
    lemma_p_str_round(s, rest);
    assert(vstr(s, rest) =~= esc(s) + seq!['"'] + rest);
}

/// A rendered boolean reads back exactly.
pub proof fn lemma_p_bool_round(b: bool, rest: Seq<char>)
    ensures
        p_bool(vbool(b, rest)) == Some((b, rest)),
{
    reveal_strlit("true");
    reveal_strlit("false");
    if b {
        lemma_p_lit_round(lit_true(), rest);
    } else {
        lemma_p_lit_round(lit_false(), rest);
        assert(p_lit(vbool(b, rest), lit_true()) is None) by {
            let inp = vbool(b, rest);
            if lit_true().len() <= inp.len() && inp.take(lit_true().len() as int) == lit_true() {
                assert(inp[0] == 'f');
                assert(inp.take(lit_true().len() as int)[0] == 'f');
                assert(lit_true()[0] == 't');
            }
        }
    }
}

/// A rendered optional value reads back exactly.
pub proof fn lemma_p_opt_round(c: Option<Seq<char>>, rest: Seq<char>)
    ensures
        p_opt(vopt(c, rest)) == Some((c, rest)),
{
    reveal_strlit("null");
    match c {
        Option::None => {
            lemma_p_lit_round(lit_null(), rest);
        },
        Option::Some(s) => {
            let inp = seq!['"'] + vstr(s, rest);
            assert(p_lit(inp, lit_null()) is None) by {
                if lit_null().len() <= inp.len() && inp.take(lit_null().len() as int)
                    == lit_null() {
                    assert(inp.take(lit_null().len() as int)[0] == '"');
                    assert(lit_null()[0] == 'n');
                }
            }
            lemma_p_lit_round(seq!['"'], vstr(s, rest));
            lemma_p_vstr_round(s, rest);
        },
    }
}

/// A rendered record reads back exactly: the parser returns the very same
/// record and leaves exactly the trailing input.
pub proof fn lemma_p_record_round(sv: SkillView, rest: Seq<char>)
    ensures
        p_record(render_record_onto(sv, rest)) == Some((sv, rest)),
{
    let t10 = seq!['}'] + rest;
    let t9 = lab_fetch() + vbool(sv.is_fetched, t10);
    let t8 = lab_inst() + vbool(sv.is_installed, t9);
    let t7 = lab_content() + vopt(sv.content, t8);
    let t6 = lab_path() + vstr(sv.path, t7);
    let t5 = lab_spath() + vstr(sv.skills_path, t6);
    let t4 = lab_repo() + vstr(sv.repo, t5);
    let t3 = lab_owner() + vstr(sv.owner, t4);
    let t2 = lab_desc() + vstr(sv.description, t3);
    let t1 = lab_name() + vstr(sv.name, t2);
    lemma_p_lit_round(lab_id(), vstr(sv.id, t1));
    lemma_p_vstr_round(sv.id, t1);
    lemma_p_lit_round(lab_name(), vstr(sv.name, t2));
    lemma_p_vstr_round(sv.name, t2);
    lemma_p_lit_round(lab_desc(), vstr(sv.description, t3));
    lemma_p_vstr_round(sv.description, t3);
    lemma_p_lit_round(lab_owner(), vstr(sv.owner, t4));
    lemma_p_vstr_round(sv.owner, t4);
    lemma_p_lit_round(lab_repo(), vstr(sv.repo, t5));
    lemma_p_vstr_round(sv.repo, t5);
    lemma_p_lit_round(lab_spath(), vstr(sv.skills_path, t6));
    lemma_p_vstr_round(sv.skills_path, t6);
    lemma_p_lit_round(lab_path(), vstr(sv.path, t7));
    lemma_p_vstr_round(sv.path, t7);
    lemma_p_lit_round(lab_content(), vopt(sv.content, t8));
    lemma_p_opt_round(sv.content, t8);
    lemma_p_lit_round(lab_inst(), vbool(sv.is_installed, t9));
    lemma_p_bool_round(sv.is_installed, t9);
    lemma_p_lit_round(lab_fetch(), vbool(sv.is_fetched, t10));
    lemma_p_bool_round(sv.is_fetched, t10);
    lemma_p_lit_round(seq!['}'], rest);
    match p_record(render_record_onto(sv, rest)) {
        Some(p) => {
            assert(p.0 =~= sv);
        },
        None => {
            assert(false);
        },
    }
}

/// Plain associativity of concatenation.
proof fn lemma_cat3(a: Seq<char>, b: Seq<char>, c: Seq<char>)
    ensures
        (a + b) + c == a + (b + c),
{
    assert((a + b) + c =~= a + (b + c));
}

/// Appends one string field: its label, the escaped value, and the closing
/// quote.
fn emit_str_field(out: &mut Vec<char>, lab: &str, value: &str)
    ensures
        final(out)@ == old(out)@ + (lab@ + esc(value@) + seq!['"']),
{
    push_lit(out, lab);
    escape_into(out, value);
    out.push('"');
    proof {
        assert(final(out)@ =~= old(out)@ + (lab@ + esc(value@) + seq!['"']));
    }
}

/// Appends one whole record.
#[verifier::rlimit(80)]
fn render_record_into(out: &mut Vec<char>, s: &Skill)
    ensures
        final(out)@ == old(out)@ + render_record(s@),
{
    let ghost rr = render_record(s@);
    let ghost r10 = lab_fetch() + render_bool(s.is_fetched) + seq!['}'];
    let ghost r9 = lab_inst() + render_bool(s.is_installed) + r10;
    let ghost r8 = lab_content() + render_opt(opt_text_view(s.content)) + r9;
    let ghost r7 = lab_path() + esc(s.path@) + seq!['"'] + r8;
    let ghost r6 = lab_spath() + esc(s.skills_path@) + seq!['"'] + r7;
    let ghost r5 = lab_repo() + esc(s.repo@) + seq!['"'] + r6;
    let ghost r4 = lab_owner() + esc(s.owner@) + seq!['"'] + r5;
    let ghost r3 = lab_desc() + esc(s.description@) + seq!['"'] + r4;
    let ghost r2 = lab_name() + esc(s.name@) + seq!['"'] + r3;
    proof {
        assert(rr == lab_id() + esc(s.id@) + seq!['"'] + r2);
    }
    emit_str_field(out, "{\"id\":\"", s.id.as_str());
    proof {
        lemma_cat3(old(out)@, lab_id() + esc(s.id@) + seq!['"'], r2);
        assert(out@ + r2 == old(out)@ + rr);
    }
    let ghost o1 = out@;
    emit_str_field(out, ",\"name\":\"", s.name.as_str());
    proof {
        lemma_cat3(o1, lab_name() + esc(s.name@) + seq!['"'], r3);
        assert(out@ + r3 == old(out)@ + rr);
    }
    let ghost o2 = out@;
    emit_str_field(out, ",\"description\":\"", s.description.as_str());
    proof {
        lemma_cat3(o2, lab_desc() + esc(s.description@) + seq!['"'], r4);
        assert(out@ + r4 == old(out)@ + rr);
    }
    let ghost o3 = out@;
    emit_str_field(out, ",\"owner\":\"", s.owner.as_str());
    proof {
        lemma_cat3(o3, lab_owner() + esc(s.owner@) + seq!['"'], r5);
        assert(out@ + r5 == old(out)@ + rr);
    }
    let ghost o4 = out@;
    emit_str_field(out, ",\"repo\":\"", s.repo.as_str());
    proof {
        lemma_cat3(o4, lab_repo() + esc(s.repo@) + seq!['"'], r6);
        assert(out@ + r6 == old(out)@ + rr);
    }
    let ghost o5 = out@;
    emit_str_field(out, ",\"skillsPath\":\"", s.skills_path.as_str());
    proof {
        lemma_cat3(o5, lab_spath() + esc(s.skills_path@) + seq!['"'], r7);
        assert(out@ + r7 == old(out)@ + rr);
    }
    let ghost o6 = out@;
    emit_str_field(out, ",\"path\":\"", s.path.as_str());
    proof {
        lemma_cat3(o6, lab_path() + esc(s.path@) + seq!['"'], r8);
        assert(out@ + r8 == old(out)@ + rr);
    }
    let ghost o7 = out@;
    push_lit(out, ",\"content\":");
    match &s.content {
        Some(c) => {
            out.push('"');
            escape_into(out, c.as_str());
            out.push('"');
            proof {
                assert(out@ =~= o7 + (lab_content() + render_opt(opt_text_view(s.content))));
            }
        },
        None => {
            push_lit(out, "null");
            proof {
                reveal_strlit("null");
                assert(out@ =~= o7 + (lab_content() + render_opt(opt_text_view(s.content))));
            }
        },
    }
    proof {
        lemma_cat3(o7, lab_content() + render_opt(opt_text_view(s.content)), r9);
        assert(out@ + r9 == old(out)@ + rr);
    }
    let ghost o8 = out@;
    push_lit(out, ",\"isInstalled\":");
    if s.is_installed {
        push_lit(out, "true");
    } else {
        push_lit(out, "false");
    }
    proof {
        assert(out@ =~= o8 + (lab_inst() + render_bool(s.is_installed)));
        lemma_cat3(o8, lab_inst() + render_bool(s.is_installed), r10);
        assert(out@ + r10 == old(out)@ + rr);
    }
    let ghost o9 = out@;
    push_lit(out, ",\"isFetched\":");
    if s.is_fetched {
        push_lit(out, "true");
    } else {
        push_lit(out, "false");
    }
    out.push('}');
    proof {
        assert(out@ =~= o9 + r10);
    }
}

/// Reads one record at position `i`.
fn parse_record(v: &Vec<char>, i: usize) -> (r: Option<(Skill, usize)>)
    requires
        i <= v@.len(),
    ensures
        match r {
            Some(p) => i <= p.1 <= v@.len() && p_record(v@.skip(i as int)) == Some(
                (p.0@, v@.skip(p.1 as int)),
            ),
            None => p_record(v@.skip(i as int)) is None,
        },
{
    let lab = chars_of("{\"id\":\"");
    let j1 = match parse_lit(v, i, &lab) {
        Some(j) => j,
        None => {
            return None;
        },
    };
    let (id_c, j2) = match parse_str(v, j1) {
        Some(p) => p,
        None => {
            return None;
        },
    };
    let lab = chars_of(",\"name\":\"");
    let j3 = match parse_lit(v, j2, &lab) {
        Some(j) => j,
        None => {
            return None;
        },
    };
    let (name_c, j4) = match parse_str(v, j3) {
        Some(p) => p,
        None => {
            return None;
        },
    };
    let lab = chars_of(",\"description\":\"");
    let j5 = match parse_lit(v, j4, &lab) {
        Some(j) => j,
        None => {
            return None;
        },
    };
    let (desc_c, j6) = match parse_str(v, j5) {
        Some(p) => p,
        None => {
            return None;
        },
    };
    let lab = chars_of(",\"owner\":\"");
    let j7 = match parse_lit(v, j6, &lab) {
        Some(j) => j,
        None => {
            return None;
        },
    };
    let (owner_c, j8) = match parse_str(v, j7) {
        Some(p) => p,
        None => {
            return None;
        },
    };
    let lab = chars_of(",\"repo\":\"");
    let j9 = match parse_lit(v, j8, &lab) {
        Some(j) => j,
        None => {
            return None;
        },
    };
    let (repo_c, j10) = match parse_str(v, j9) {
        Some(p) => p,
        None => {
            return None;
        },
    };
    let lab = chars_of(",\"skillsPath\":\"");
    let j11 = match parse_lit(v, j10, &lab) {
        Some(j) => j,
        None => {
            return None;
        },
    };
    let (spath_c, j12) = match parse_str(v, j11) {
        Some(p) => p,
        None => {
            return None;
        },
    };
    let lab = chars_of(",\"path\":\"");
    let j13 = match parse_lit(v, j12, &lab) {
        Some(j) => j,
        None => {
            return None;
        },
    };
    let (path_c, j14) = match parse_str(v, j13) {
        Some(p) => p,
        None => {
            return None;
        },
    };
    let lab = chars_of(",\"content\":");
    let j15 = match parse_lit(v, j14, &lab) {
        Some(j) => j,
        None => {
            return None;
        },
    };
    let (content, j16) = match parse_opt(v, j15) {
        Some(p) => p,
        None => {
            return None;
        },
    };
    let lab = chars_of(",\"isInstalled\":");
    let j17 = match parse_lit(v, j16, &lab) {
        Some(j) => j,
        None => {
            return None;
        },
    };
    let (is_installed, j18) = match parse_bool(v, j17) {
        Some(p) => p,
        None => {
            return None;
        },
    };
    let lab = chars_of(",\"isFetched\":");
    let j19 = match parse_lit(v, j18, &lab) {
        Some(j) => j,
        None => {
            return None;
        },
    };
    let (is_fetched, j20) = match parse_bool(v, j19) {
        Some(p) => p,
        None => {
            return None;
        },
    };
    let mut close: Vec<char> = Vec::new();
    close.push('}');
    proof {
        assert(close@ =~= seq!['}']);
    }
    let j21 = match parse_lit(v, j20, &close) {
        Some(j) => j,
        None => {
            return None;
        },
    };
    let record = Skill {
        id: string_from_chars(&id_c),
        name: string_from_chars(&name_c),
        description: string_from_chars(&desc_c),
        owner: string_from_chars(&owner_c),
        repo: string_from_chars(&repo_c),
        skills_path: string_from_chars(&spath_c),
        path: string_from_chars(&path_c),
        content,
        is_installed,
        is_fetched,
    };
    proof {
        match p_record(v@.skip(i as int)) {
            Some(p) => {
                assert(p.0 =~= record@);
            },
            None => {
                assert(false);
            },
        }
    }
    Some((record, j21))
}

/// Reads a boolean at position `i`.
fn parse_bool(v: &Vec<char>, i: usize) -> (r: Option<(bool, usize)>)
    requires
        i <= v@.len(),
    ensures
        match r {
            Some(p) => i <= p.1 <= v@.len() && p_bool(v@.skip(i as int)) == Some(
                (p.0, v@.skip(p.1 as int)),
            ),
            None => p_bool(v@.skip(i as int)) is None,
        },
{
    let t = chars_of("true");
    match parse_lit(v, i, &t) {
        Some(j) => Some((true, j)),
        None => {
            let f = chars_of("false");
            match parse_lit(v, i, &f) {
                Some(j) => Some((false, j)),
                None => None,
            }
        },
    }
}

/// The rendered records after the first, each preceded by a comma,
/// continued by `tail`.
pub open spec fn render_tail_onto(l: Seq<SkillView>, tail: Seq<char>) -> Seq<char>
    decreases l.len(),
{
    if l.len() == 0 {
        tail
    } else {
        seq![','] + render_record_onto(l[0], render_tail_onto(l.drop_first(), tail))
    }
}

/// The whole rendered cache text of a skill list.
pub open spec fn render_skills_spec(l: Seq<SkillView>) -> Seq<char> {
    if l.len() == 0 {
        seq!['['] + seq![']']
    } else {
        seq!['['] + render_record_onto(l[0], render_tail_onto(l.drop_first(), seq![']']))
    }
}

/// Parses the records after the first: `,record` repeatedly, then the
/// closing bracket, which must end the input.
pub open spec fn p_items(s: Seq<char>) -> Option<Seq<SkillView>>
    decreases s.len(),
{
    if s.len() == 1 && s[0] == ']' {
        Some(Seq::empty())
    } else if s.len() > 0 && s[0] == ',' {
        match p_record(s.drop_first()) {
            Some((sv, r)) => if r.len() < s.len() {
                match p_items(r) {
                    Some(l) => Some(seq![sv] + l),
                    None => None,
                }
            } else {
                None
            },
            None => None,
        }
    } else {
        None
    }
}

/// Parses a whole cache text: a bracketed list of records, nothing after.
pub open spec fn p_list(s: Seq<char>) -> Option<Seq<SkillView>> {
    if s.len() >= 1 && s[0] == '[' {
        let s1 = s.drop_first();
        if s1.len() >= 1 && s1[0] == ']' {
            if s1.len() == 1 {
                Some(Seq::empty())
            } else {
                None
            }
        } else {
            match p_record(s1) {
                Some((sv, r)) => match p_items(r) {
                    Some(l) => Some(seq![sv] + l),
                    None => None,
                },
                None => None,
            }
        }
    } else {
        None
    }
}

/// A record's rendering is never empty and starts with an opening brace.
pub proof fn lemma_record_starts(sv: SkillView, tail: Seq<char>)
    ensures
        render_record_onto(sv, tail).len() > tail.len(),
        render_record_onto(sv, tail)[0] == '{',
{
    reveal_strlit("{\"id\":\"");
    lemma_record_onto(sv, tail);
    assert(render_record(sv).len() >= lab_id().len());
    assert(render_record_onto(sv, tail)[0] == (render_record(sv) + tail)[0]);
    assert(render_record(sv)[0] == lab_id()[0]);
}

/// The rendered tail of a list reads back exactly.
#[verifier::rlimit(100)]
pub proof fn lemma_p_items_round(l: Seq<SkillView>)
    ensures
        p_items(render_tail_onto(l, seq![']'])) == Some(l),
    decreases l.len(),
{
    if l.len() == 0 {
        let inp = render_tail_onto(l, seq![']']);
        assert(inp == seq![']']);
        assert(inp.len() == 1 && inp[0] == ']');
    } else {
        let t = render_tail_onto(l.drop_first(), seq![']']);
        let rr = render_record_onto(l[0], t);
        let inp = seq![','] + rr;
        assert(inp[0] == ',');
        assert(inp.drop_first() =~= rr);
        lemma_p_record_round(l[0], t);
        lemma_record_starts(l[0], t);
        assert(t.len() < inp.len());
        lemma_p_items_round(l.drop_first());
        assert(seq![l[0]] + l.drop_first() =~= l);
    }
}

/// Cache round-trip: parsing a rendered skill list returns exactly the
/// records that were written — every field, including the scratch
/// `is_installed` value, reads back verbatim. Readers recompute the
/// installed flag afterwards against the current installed listing.
#[verifier::rlimit(100)]
pub proof fn lemma_cache_round_trip(l: Seq<SkillView>)
    ensures
        p_list(render_skills_spec(l)) == Some(l),
{
    let inp = render_skills_spec(l);
    if l.len() == 0 {
        assert(inp =~= seq!['[', ']']);
        assert(inp[0] == '[');
        assert(inp.drop_first() =~= seq![']']);
    } else {
        let t = render_tail_onto(l.drop_first(), seq![']']);
        let rr = render_record_onto(l[0], t);
        assert(inp == seq!['['] + rr);
        assert(inp[0] == '[');
        assert(inp.drop_first() =~= rr);
        lemma_record_starts(l[0], t);
        assert(rr[0] == '{');
        lemma_p_record_round(l[0], t);
        lemma_p_items_round(l.drop_first());
        assert(seq![l[0]] + l.drop_first() =~= l);
    }
}

/// Renders a skill list as its cache text: a JSON list with one object per
/// record, fields in a fixed order, strings escaped.
pub fn render_skills(skills: &Vec<Skill>) -> (r: String)
    ensures
        r@ == render_skills_spec(skills_view(skills@)),
{
    let ghost l = skills_view(skills@);
    let mut out: Vec<char> = Vec::new();
    out.push('[');
    if skills.len() == 0 {
        out.push(']');
        proof {
            assert(out@ =~= render_skills_spec(l));
        }
        return string_from_chars(&out);
    }
    let ghost whole = render_skills_spec(l);
    render_record_into(&mut out, &skills[0]);
    proof {
        assert(l.drop_first() =~= l.skip(1));
        lemma_record_onto(l[0], render_tail_onto(l.skip(1), seq![']']));
        assert(out@ =~= seq!['['] + render_record(l[0]));
        lemma_cat3(seq!['['], render_record(l[0]), render_tail_onto(l.skip(1), seq![']']));
        assert(out@ + render_tail_onto(l.skip(1), seq![']']) == whole);
    }
    let mut k: usize = 1;
    while k < skills.len()
        invariant
            1 <= k <= skills@.len(),
            l == skills_view(skills@),
            whole == render_skills_spec(l),
            out@ + render_tail_onto(l.skip(k as int), seq![']']) == whole,
        decreases skills@.len() - k,
    {
        let ghost o0 = out@;
        let ghost tk = render_tail_onto(l.skip(k as int), seq![']']);
        let ghost tk1 = render_tail_onto(l.skip(k + 1 as int), seq![']']);
        out.push(',');
        render_record_into(&mut out, &skills[k]);
        proof {
            assert(l.skip(k as int)[0] == l[k as int]);
            assert(l.skip(k as int).drop_first() =~= l.skip(k + 1 as int));
            assert(tk == seq![','] + render_record_onto(l[k as int], tk1));
            lemma_record_onto(l[k as int], tk1);
            assert(out@ =~= o0 + (seq![','] + render_record(l[k as int])));
            lemma_cat3(seq![','], render_record(l[k as int]), tk1);
            assert(tk == (seq![','] + render_record(l[k as int])) + tk1);
            lemma_cat3(o0, seq![','] + render_record(l[k as int]), tk1);
            assert(out@ + tk1 == whole);
        }
        k = k + 1;
    }
    out.push(']');
    proof {
        assert(l.skip(l.len() as int) =~= Seq::<SkillView>::empty());
        assert(render_tail_onto(l.skip(l.len() as int), seq![']']) == seq![']']);
        assert(out@ =~= render_skills_spec(l));
    }
    string_from_chars(&out)
}

/// Reads the records after the first, through the closing bracket, which
/// must end the input.
fn parse_items(v: &Vec<char>, i: usize) -> (r: Option<Vec<Skill>>)
    requires
        i <= v@.len(),
    ensures
        match r {
            Some(list) => p_items(v@.skip(i as int)) == Some(skills_view(list@)),
            None => p_items(v@.skip(i as int)) is None,
        },
    decreases v@.len() - i,
{
    if i == v.len() {
        return None;
    }
    let c = v[i];
    proof {
        assert(v@.skip(i as int)[0] == v@[i as int]);
        assert(v@.skip(i as int).drop_first() =~= v@.skip(i + 1 as int));
    }
    if c == ']' {
        if i + 1 == v.len() {
            let empty_list: Vec<Skill> = Vec::new();
            proof {
                assert(skills_view(empty_list@) =~= Seq::<SkillView>::empty());
            }
            return Some(empty_list);
        } else {
            return None;
        }
    }
    if c != ',' {
        return None;
    }
    match parse_record(v, i + 1) {
        Some(p) => {
            let (sk, j) = p;
            match parse_items(v, j) {
                Some(mut list) => {
                    let ghost rest_views = skills_view(list@);
                    list.insert(0, sk);
                    proof {
                        assert(skills_view(list@) =~= seq![sk@] + rest_views);
                    }
                    Some(list)
                },
                None => None,
            }
        },
        None => None,
    }
}

/// Parses a cache text back into its skill records. Returns `None` — "no
/// cache" — on anything but the canonical text the renderer produces.
pub fn parse_skills(s: &str) -> (r: Option<Vec<Skill>>)
    ensures
        match r {
            Some(list) => p_list(s@) == Some(skills_view(list@)),
            None => p_list(s@) is None,
        },
{
    let v = chars_of(s);
    if v.len() == 0 {
        return None;
    }
    if v[0] != '[' {
        return None;
    }
    proof {
        assert(v@.drop_first() =~= v@.skip(1));
    }
    if v.len() >= 2 && v[1] == ']' {
        proof {
            assert(v@.skip(1)[0] == v@[1]);
        }
        if v.len() == 2 {
            let empty_list: Vec<Skill> = Vec::new();
            proof {
                assert(skills_view(empty_list@) =~= Seq::<SkillView>::empty());
            }
            Some(empty_list)
        } else {
            None
        }
    } else {
        proof {
            if v@.len() >= 2 {
                assert(v@.skip(1)[0] == v@[1]);
            }
        }
        match parse_record(&v, 1) {
            Some(p) => {
                let (sk, j) = p;
                match parse_items(&v, j) {
                    Some(mut list) => {
                        let ghost rest_views = skills_view(list@);
                        list.insert(0, sk);
                        proof {
                            assert(skills_view(list@) =~= seq![sk@] + rest_views);
                        }
                        Some(list)
                    },
                    None => None,
                }
            },
            None => None,
        }
    }
}

/// Reads `null` or a string value at position `i`.
fn parse_opt(v: &Vec<char>, i: usize) -> (r: Option<(Option<String>, usize)>)
    requires
        i <= v@.len(),
    ensures
        match r {
            Some(p) => i <= p.1 <= v@.len() && p_opt(v@.skip(i as int)) == Some(
                (opt_text_view(p.0), v@.skip(p.1 as int)),
            ),
            None => p_opt(v@.skip(i as int)) is None,
        },
{
    let nul = chars_of("null");
    match parse_lit(v, i, &nul) {
        Some(j) => Some((None, j)),
        None => {
            let mut qv: Vec<char> = Vec::new();
            qv.push('"');
            proof {
                assert(qv@ =~= seq!['"']);
            }
            match parse_lit(v, i, &qv) {
                Some(j) => match parse_str(v, j) {
                    Some(p) => Some((Some(string_from_chars(&p.0)), p.1)),
                    None => None,
                },
                None => None,
            }
        },
    }
}

} // verus!
