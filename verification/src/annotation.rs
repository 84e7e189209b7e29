//! The annotation matcher: recognizes comment text that carries a control
//! annotation. A comment qualifies when its first word is the literal token
//! `control`, followed by one or more groups of one whitespace character and
//! then one or more word characters (letters, digits, underscore). Comment
//! delimiters and other non-word characters may precede the token, so
//! `// control SUB-1`, `/* control HE-110 JS-1 */` and a multi-line block
//! whose body starts with `control T84` all qualify, while `// controlling`,
//! `// controltest` and `// not a control comment` do not.
//!
//! The character classes are deliberately ASCII: control identifiers are
//! ASCII tokens, so a letter or digit outside ASCII neither begins a token
//! nor separates one, and a comment whose token letters lie outside ASCII is
//! not a control annotation. This keeps what counts as an annotation the same
//! on every machine and writable here as an exact, finite definition.

use vstd::prelude::*;
use vstd::string::StrSliceExecFns;

verus! {

/// A word character: an ASCII letter, an ASCII digit, or an underscore.
pub open spec fn is_word_char(c: char) -> bool {
    let u = c as u32;
    ('a' as u32 <= u && u <= 'z' as u32) || ('A' as u32 <= u && u <= 'Z' as u32) || ('0' as u32
        <= u && u <= '9' as u32) || u == '_' as u32
}

/// A whitespace character: space, tab, line feed, carriage return, vertical
/// tab (code 11) or form feed (code 12).
pub open spec fn is_space_char(c: char) -> bool {
    let u = c as u32;
    u == ' ' as u32 || u == '\t' as u32 || u == '\n' as u32 || u == '\r' as u32 || u == 11 || u
        == 12
}

/// The literal token that marks a control annotation.
pub open spec fn marker() -> Seq<char> {
    seq!['c', 'o', 'n', 't', 'r', 'o', 'l']
}

/// The marker occurs at position `i`, followed by one whitespace character and
/// then the first character of a word token. Whatever follows that character
/// is irrelevant: one whitespace-plus-word group is already a complete match,
/// and longer token lists only extend it.
pub open spec fn annotation_at(s: Seq<char>, i: int) -> bool {
    &&& 0 <= i
    &&& i + 9 <= s.len()
    &&& s.subrange(i, i + 7) == marker()
    &&& is_space_char(s[i + 7])
    &&& is_word_char(s[i + 8])
}

/// No word character occurs before position `i`: whatever stands there is
/// comment delimiters, whitespace or punctuation, so the marker at `i` is the
/// comment's first word.
pub open spec fn no_word_before(s: Seq<char>, i: int) -> bool {
    forall|k: int| 0 <= k < i ==> !is_word_char(s[k])
}

/// The comment text carries a control annotation: its first word is the
/// marker token `control`, followed by whitespace and at least one word
/// character.
pub open spec fn is_control_annotation(s: Seq<char>) -> bool {
    exists|i: int| annotation_at(s, i) && no_word_before(s, i)
}

/// The pattern decided on representative comment texts: a line comment and a
/// block comment whose first word is the marker are control annotations (the
/// full text, with delimiters and however many tokens, stays the comment's
/// own affair); a word continuing the marker, a token glued to it without
/// whitespace, and a comment whose first word is not the marker are not.
pub proof fn lemma_annotation_examples()
    ensures
        is_control_annotation("// control SUB-1"@),
        is_control_annotation("/* control HE-110 JS-1 */"@),
        !is_control_annotation("// controlling"@),
        !is_control_annotation("// controltest"@),
        !is_control_annotation("// not a control comment"@),
{
    reveal_strlit("// control SUB-1");
    reveal_strlit("/* control HE-110 JS-1 */");
    reveal_strlit("// controlling");
    reveal_strlit("// controltest");
    reveal_strlit("// not a control comment");
    let line = "// control SUB-1"@;
    assert(line.subrange(3, 10) =~= marker());
    assert(annotation_at(line, 3));
    assert(no_word_before(line, 3)) by {
        assert forall|k: int| 0 <= k < 3 implies !is_word_char(line[k]) by {
            assert(!is_word_char(line[0]) && !is_word_char(line[1]) && !is_word_char(line[2]));
        }
    }
    let block = "/* control HE-110 JS-1 */"@;
    assert(block.subrange(3, 10) =~= marker());
    assert(annotation_at(block, 3));
    assert(no_word_before(block, 3)) by {
        assert forall|k: int| 0 <= k < 3 implies !is_word_char(block[k]) by {
            assert(!is_word_char(block[0]) && !is_word_char(block[1]) && !is_word_char(block[2]));
        }
    }
    let run_on = "// controlling"@;
    assert forall|w: int| !(annotation_at(run_on, w) && no_word_before(run_on, w)) by {
        if annotation_at(run_on, w) && no_word_before(run_on, w) {
            assert(is_word_char(run_on[3]));
            assert(w <= 3);
            assert(run_on.subrange(w, w + 7)[0] == run_on[w]);
            assert(run_on[w] == 'c');
            assert(w == 3);
            assert(is_space_char(run_on[10]));
            assert(run_on[10] == 'l');
            assert(false);
        }
    }
    let glued = "// controltest"@;
    assert forall|w: int| !(annotation_at(glued, w) && no_word_before(glued, w)) by {
        if annotation_at(glued, w) && no_word_before(glued, w) {
            assert(is_word_char(glued[3]));
            assert(w <= 3);
            assert(glued.subrange(w, w + 7)[0] == glued[w]);
            assert(glued[w] == 'c');
            assert(w == 3);
            assert(is_space_char(glued[10]));
            assert(glued[10] == 't');
            assert(false);
        }
    }
    let prose = "// not a control comment"@;
    assert forall|w: int| !(annotation_at(prose, w) && no_word_before(prose, w)) by {
        if annotation_at(prose, w) && no_word_before(prose, w) {
            assert(is_word_char(prose[3]));
            assert(w <= 3);
            assert(prose.subrange(w, w + 7)[0] == prose[w]);
            assert(prose[w] == 'c');
            assert(prose[0] == '/' && prose[1] == '/' && prose[2] == ' ' && prose[3] == 'n');
            assert(false);
        }
    }
}

fn word_char(c: char) -> (r: bool)
    ensures
        r == is_word_char(c),
{
    let u = c as u32;
    ('a' as u32 <= u && u <= 'z' as u32) || ('A' as u32 <= u && u <= 'Z' as u32) || ('0' as u32
        <= u && u <= '9' as u32) || u == '_' as u32
}

fn space_char(c: char) -> (r: bool)
    ensures
        r == is_space_char(c),
{
    let u = c as u32;
    u == ' ' as u32 || u == '\t' as u32 || u == '\n' as u32 || u == '\r' as u32 || u == 11 || u
        == 12
}

/// Decides whether a comment's exact text carries a control annotation.
pub fn matches_annotation(text: &str) -> (r: bool)
    ensures
        r == is_control_annotation(text@),
{
    let n = text.unicode_len();
    let mut i: usize = 0;
    while i < n && !word_char(text.get_char(i))
        invariant
            i <= n,
            n == text@.len(),
            forall|k: int| 0 <= k < i ==> !is_word_char(text@[k]),
        decreases n - i,
    {
        i = i + 1;
    }
    if i == n {
        proof {
            assert forall|w: int| !(annotation_at(text@, w) && no_word_before(text@, w)) by {
                if annotation_at(text@, w) {
                    assert(text@.subrange(w, w + 7)[0] == text@[w]);
                    assert(text@[w] == 'c');
                    assert(is_word_char('c'));
                }
            }
        }
        return false;
    }
    if n - i < 9 {
        proof {
            assert forall|w: int| !(annotation_at(text@, w) && no_word_before(text@, w)) by {
                if annotation_at(text@, w) && no_word_before(text@, w) {
                    assert(text@.subrange(w, w + 7)[0] == text@[w]);
                    assert(text@[w] == 'c');
                    assert(is_word_char(text@[w]));
                    assert(w >= i);
                    assert(is_word_char(text@[i as int]));
                    assert(w <= i);
                }
            }
        }
        return false;
    }
    let ok = text.get_char(i) == 'c' && text.get_char(i + 1) == 'o' && text.get_char(i + 2) == 'n'
        && text.get_char(i + 3) == 't' && text.get_char(i + 4) == 'r' && text.get_char(i + 5)
        == 'o' && text.get_char(i + 6) == 'l' && space_char(text.get_char(i + 7)) && word_char(
        text.get_char(i + 8),
    );
    proof {
        if ok {
            assert(text@.subrange(i as int, i as int + 7) =~= marker());
            assert(annotation_at(text@, i as int));
            assert(no_word_before(text@, i as int));
            assert(is_control_annotation(text@));
        } else {
            assert forall|w: int| !(annotation_at(text@, w) && no_word_before(text@, w)) by {
                if annotation_at(text@, w) && no_word_before(text@, w) {
                    assert(text@.subrange(w, w + 7)[0] == text@[w]);
                    assert(text@[w] == 'c');
                    assert(is_word_char(text@[w]));
                    assert(w >= i);
                    assert(is_word_char(text@[i as int]));
                    assert(w <= i);
                    assert(w == i);
                    assert(text@.subrange(w, w + 7)[1] == text@[w + 1]);
                    assert(text@.subrange(w, w + 7)[2] == text@[w + 2]);
                    assert(text@.subrange(w, w + 7)[3] == text@[w + 3]);
                    assert(text@.subrange(w, w + 7)[4] == text@[w + 4]);
                    assert(text@.subrange(w, w + 7)[5] == text@[w + 5]);
                    assert(text@.subrange(w, w + 7)[6] == text@[w + 6]);
                    assert(text@[i as int] == 'c');
                    assert(text@[i as int + 1] == 'o');
                    assert(text@[i as int + 2] == 'n');
                    assert(text@[i as int + 3] == 't');
                    assert(text@[i as int + 4] == 'r');
                    assert(text@[i as int + 5] == 'o');
                    assert(text@[i as int + 6] == 'l');
                    assert(is_space_char(text@[i as int + 7]));
                    assert(is_word_char(text@[i as int + 8]));
                    assert(ok);
                }
            }
        }
    }
    ok
}

} // verus!
