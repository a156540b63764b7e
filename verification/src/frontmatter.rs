//! Metadata Parser: extracts a skill's display name and description from the
//! delimited header block at the start of its definition document.
//!
//! The header block is bounded by a line of exactly three hyphens at the very
//! start of the document and a matching line closing it; inside it, a `name:`
//! field and a `description:` field each run to the end of their line, with
//! surrounding whitespace trimmed.

use vstd::prelude::*;
use vstd::string::StringExecFns;
use crate::strutil::{
    chars_of, copy_range, find_from, find_pattern, lemma_find_from, match_at, string_from_chars,
    trim_range, trim_spec,
};

verus! {

/// Whether the document opens with the `---` marker line.
pub open spec fn opens_with_marker(s: Seq<char>) -> bool {
    s.len() >= 4 && s[0] == '-' && s[1] == '-' && s[2] == '-' && s[3] == '\n'
}

/// Whether a closing marker line (a line of exactly three hyphens) starts at
/// the newline at position `j`.
pub open spec fn is_close_at(s: Seq<char>, j: int) -> bool {
    &&& 0 <= j
    &&& j + 4 <= s.len()
    &&& s[j] == '\n'
    &&& s[j + 1] == '-'
    &&& s[j + 2] == '-'
    &&& s[j + 3] == '-'
    &&& (j + 4 == s.len() || s[j + 4] == '\n')
}

/// The first closing-marker position at or after `from`.
pub open spec fn find_close(s: Seq<char>, from: int) -> Option<int>
    decreases s.len() - from,
{
    if from < 0 || from + 4 > s.len() {
        None
    } else if is_close_at(s, from) {
        Some(from)
    } else {
        find_close(s, from + 1)
    }
}

/// [`find_close`] returns exactly the first closing-marker position.
pub proof fn lemma_find_close(s: Seq<char>, from: int)
    requires
        from >= 0,
    ensures
        match find_close(s, from) {
            Some(i) => from <= i && is_close_at(s, i) && forall|j: int|
                from <= j < i ==> !is_close_at(s, j),
            None => forall|j: int| j >= from ==> !is_close_at(s, j),
        },
    decreases s.len() - from,
{
    if from + 4 > s.len() {
    } else if is_close_at(s, from) {
    } else {
        lemma_find_close(s, from + 1);
    }
}

/// The text of the header block, if the document has one.
pub open spec fn header_block(s: Seq<char>) -> Option<Seq<char>> {
    if opens_with_marker(s) {
        match find_close(s, 4) {
            Some(j) => Some(s.subrange(4, j)),
            None => None,
        }
    } else {
        None
    }
}

/// The end (exclusive) of the line that position `from` lies on.
pub open spec fn line_end(s: Seq<char>, from: int) -> int {
    match find_from(s, seq!['\n'], from) {
        Some(i) => i,
        None => s.len() as int,
    }
}

/// The trimmed remainder of the line on which `key` first occurs, or `dflt`
/// where `key` does not occur.
pub open spec fn field_value(fm: Seq<char>, key: Seq<char>, dflt: Seq<char>) -> Seq<char> {
    match find_from(fm, key, 0) {
        Some(i) => trim_spec(fm.subrange(i + key.len(), line_end(fm, i + key.len()))),
        None => dflt,
    }
}

/// The name the parser yields for a document.
pub open spec fn parsed_name(s: Seq<char>) -> Seq<char> {
    match header_block(s) {
        Some(fm) => field_value(fm, "name:"@, "Unknown"@),
        None => "Unknown"@,
    }
}

/// The description the parser yields for a document.
pub open spec fn parsed_description(s: Seq<char>) -> Seq<char> {
    match header_block(s) {
        Some(fm) => field_value(fm, "description:"@, Seq::empty()),
        None => Seq::empty(),
    }
}

/// Executable closing-marker test at position `j`.
fn close_at(v: &Vec<char>, j: usize) -> (r: bool)
    ensures
        r == is_close_at(v@, j as int),
{
    if v.len() < 4 || j > v.len() - 4 {
        return false;
    }
    v[j] == '\n' && v[j + 1] == '-' && v[j + 2] == '-' && v[j + 3] == '-' && (j + 4 == v.len() || v[
        j + 4] == '\n')
}

/// Finds the first closing-marker position at or after `from`.
fn find_close_exec(v: &Vec<char>, from: usize) -> (r: Option<usize>)
    ensures
        match r {
            Some(i) => find_close(v@, from as int) == Some(i as int),
            None => find_close(v@, from as int) is None,
        },
{
    let n: usize = v.len();
    if n < 4 || from > n - 4 {
        proof {
            lemma_find_close(v@, from as int);
            match find_close(v@, from as int) {
                Some(w) => {
                    assert(is_close_at(v@, w));
                },
                None => {},
            }
        }
        return None;
    }
    let mut i: usize = from;
    while i <= n - 4
        invariant
            from <= i,
            i <= n - 4 + 1,
            4 <= n,
            n == v@.len(),
            forall|j: int| from <= j < i ==> !is_close_at(v@, j),
        decreases n - i,
    {
        if close_at(v, i) {
            proof {
                lemma_find_close(v@, from as int);
                match find_close(v@, from as int) {
                    Some(w) => {
                        if w < i {
                            assert(!is_close_at(v@, w));
                        }
                        if w > i {
                            assert(!is_close_at(v@, i as int));
                        }
                        assert(w == i);
                    },
                    None => {
                        assert(!is_close_at(v@, i as int));
                    },
                }
            }
            return Some(i);
        }
        i = i + 1;
    }
    proof {
        lemma_find_close(v@, from as int);
        assert forall|j: int| j >= from implies !is_close_at(v@, j) by {}
        match find_close(v@, from as int) {
            Some(w) => {
                assert(is_close_at(v@, w));
            },
            None => {},
        }
    }
    None
}

/// The end (exclusive) of the line that `from` lies on, executably.
fn line_end_exec(v: &Vec<char>, from: usize) -> (r: usize)
    requires
        from <= v@.len(),
    ensures
        r == line_end(v@, from as int),
        from <= r <= v@.len(),
{
    let mut nl: Vec<char> = Vec::new();
    nl.push('\n');
    proof {
        assert(nl@ =~= seq!['\n']);
    }
    match find_pattern(v, &nl, from) {
        Some(i) => {
            proof {
                lemma_find_from(v@, nl@, from as int);
            }
            i
        },
        None => v.len(),
    }
}

/// The trimmed remainder of the line on which `key` first occurs in
/// `fm`, or `dflt` where it does not occur.
fn field_exec(fm: &Vec<char>, key: &Vec<char>, dflt: &str) -> (r: String)
    ensures
        r@ == field_value(fm@, key@, dflt@),
{
    match find_pattern(fm, key, 0) {
        Some(i) => {
            let n: usize = fm.len();
            proof {
                lemma_find_from(fm@, key@, 0);
                assert(match_at(fm@, key@, i as int));
            }
            let start: usize = i + key.len();
            let end: usize = line_end_exec(fm, start);
            let (a, b) = trim_range(fm, start, end);
            let piece = copy_range(fm, a, b);
            string_from_chars(&piece)
        },
        None => String::from_str(dflt),
    }
}

/// Extracts `(name, description)` from a definition document. Never fails:
/// a document without a header block yields `("Unknown", "")`, and a missing
/// field falls back the same way (`"Unknown"` for the name, empty for the
/// description).
pub fn parse_frontmatter(content: &str) -> (r: (String, String))
    ensures
        r.0@ == parsed_name(content@),
        r.1@ == parsed_description(content@),
{
    let v = chars_of(content);
    let open_ok: bool = v.len() >= 4 && {
        let c0 = v[0] == '-';
        let c1 = v[1] == '-';
        let c2 = v[2] == '-';
        let c3 = v[3] == '\n';
        c0 && c1 && c2 && c3
    };
    if !open_ok {
        return (String::from_str("Unknown"), String::new());
    }
    match find_close_exec(&v, 4) {
        Some(j) => {
            proof {
                lemma_find_close(v@, 4);
            }
            let fm = copy_range(&v, 4, j);
            let name_key = chars_of("name:");
            let desc_key = chars_of("description:");
            let name = field_exec(&fm, &name_key, "Unknown");
            let description = field_exec(&fm, &desc_key, "");
            proof {
                reveal_strlit("");
                assert(""@ =~= Seq::<char>::empty());
            }
            (name, description)
        },
        None => (String::from_str("Unknown"), String::new()),
    }
}

/// A document that does not open with the marker line, or whose opening
/// marker is never closed, yields the defaults `("Unknown", "")`.
pub proof fn lemma_no_header_defaults(s: Seq<char>)
    requires
        !opens_with_marker(s) || find_close(s, 4) is None,
    ensures
        parsed_name(s) == "Unknown"@,
        parsed_description(s) == Seq::<char>::empty(),
{
}

/// Where `key` first occurs in a header block at position `i`, the parsed
/// field value is exactly the trimmed remainder of that line: the block text
/// from the end of the key to the end of the line, with surrounding
/// whitespace removed.
pub proof fn lemma_field_is_trimmed_line(fm: Seq<char>, key: Seq<char>, dflt: Seq<char>, i: int)
    requires
        match_at(fm, key, i),
        forall|j: int| 0 <= j < i ==> !match_at(fm, key, j),
    ensures
        field_value(fm, key, dflt) == trim_spec(
            fm.subrange(i + key.len(), line_end(fm, i + key.len())),
        ),
{
    lemma_find_from(fm, key, 0);
    match find_from(fm, key, 0) {
        Some(w) => {
            if w < i {
                assert(!match_at(fm, key, w));
            }
            if w > i {
                assert(!match_at(fm, key, i));
            }
            assert(w == i);
        },
        None => {
            assert(!match_at(fm, key, i));
        },
    }
}

/// A document assembled as `---`, a newline, a block, then a closing line of
/// three hyphens has exactly that block as its header block, provided no
/// earlier closing marker occurs; its parsed fields are the block's fields.
pub proof fn lemma_assembled_header(fm: Seq<char>)
    requires
        forall|j: int| 4 <= j < 4 + fm.len() ==> !is_close_at(
            #[trigger] ("---\n"@ + fm + "\n---"@), j),
    ensures
        header_block("---\n"@ + fm + "\n---"@) == Some(fm),
        parsed_name("---\n"@ + fm + "\n---"@) == field_value(fm, "name:"@, "Unknown"@),
        parsed_description("---\n"@ + fm + "\n---"@) == field_value(fm, "description:"@,
            Seq::empty()),
{
    let doc = "---\n"@ + fm + "\n---"@;
    reveal_strlit("---\n");
    reveal_strlit("\n---");
    assert(doc.len() == fm.len() + 8);
    assert(opens_with_marker(doc));
    let close = 4 + fm.len() as int;
    assert(doc[close] == '\n');
    assert(doc[close + 1] == '-');
    assert(doc[close + 2] == '-');
    assert(doc[close + 3] == '-');
    assert(is_close_at(doc, close));
    lemma_find_close(doc, 4);
    match find_close(doc, 4) {
        Some(w) => {
            if w < close {
                assert(!is_close_at(doc, w));
            }
            if w > close {
                assert(!is_close_at(doc, close));
            }
            assert(w == close);
            assert(doc.subrange(4, close) =~= fm);
        },
        None => {
            assert(!is_close_at(doc, close));
        },
    }
}

} // verus!
