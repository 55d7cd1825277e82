//! Validation of rollback scripts.  A rollback script is plain text that a
//! release pipeline splits at every `;` and executes statement by statement,
//! with no SQL parsing beyond that split.  A script is valid when it yields
//! at least one statement, every statement holds real text (not only
//! whitespace and `--` line comments), and no `;` falls inside a line
//! comment, so that no comment ever spans a statement boundary.

use vstd::prelude::*;

verus! {

/// Whitespace, as the statement splitter sees it.
pub open spec fn is_space(c: char) -> bool {
    c == ' ' || c == '\n' || c == '\t' || c == '\r'
}

/// Position `i` lies inside a `--` line comment (the two opening dashes
/// included): some `--` opens at or before `i` with no newline in between.
pub open spec fn in_comment(s: Seq<char>, i: int) -> bool {
    exists|j: int|
        #![trigger s[j], s[j + 1]]
        0 <= j <= i && j + 1 < s.len() && s[j] == '-' && s[j + 1] == '-' && (forall|m: int|
            j < m <= i ==> #[trigger] s[m] != '\n')
}

/// Between the delimiter (or start of script) preceding position `i` and `i`
/// itself stands some statement text: a character that is not whitespace,
/// not a delimiter, and not part of a comment.
pub open spec fn substance_before(s: Seq<char>, i: int) -> bool {
    exists|k: int|
        #![trigger s[k]]
        0 <= k < i && !is_space(s[k]) && s[k] != ';' && !in_comment(s, k) && (forall|m: int|
            k < m < i ==> #[trigger] s[m] != ';')
}

/// Does the script hold any delimiter at all?
pub open spec fn has_delimiter(s: Seq<char>) -> bool {
    exists|i: int| 0 <= i < s.len() && s[i] == ';'
}

/// The prefix `s[..i]` holds a loose character: statement text (not
/// whitespace, not a delimiter) that no delimiter follows, so it would be
/// handed to the store as part of an unterminated trailing chunk.
pub open spec fn loose_tail(s: Seq<char>, i: int) -> bool {
    exists|k: int|
        #![trigger s[k]]
        0 <= k < i && !is_space(s[k]) && s[k] != ';' && (forall|m: int|
            k < m < i ==> #[trigger] s[m] != ';')
}

/// A valid rollback script: every delimiter closes a statement with real
/// text and stands outside any comment (so no comment spans a statement
/// boundary), and what follows the last delimiter is either nothing but
/// whitespace or one more complete statement.  A script without a delimiter
/// must be one complete statement on its own.
pub open spec fn valid_rollback(s: Seq<char>) -> bool {
    &&& forall|i: int|
        0 <= i < s.len() && #[trigger] s[i] == ';' ==> !in_comment(s, i) && substance_before(s, i)
    &&& if has_delimiter(s) {
        !loose_tail(s, s.len() as int) || substance_before(s, s.len() as int)
    } else {
        substance_before(s, s.len() as int)
    }
}

/// How being inside a comment at `i` follows from the state at `i - 1`.
proof fn lemma_in_comment_step(s: Seq<char>, i: int)
    requires
        0 <= i < s.len(),
    ensures
        in_comment(s, i) == ((i > 0 && in_comment(s, i - 1) && s[i] != '\n') || (s[i] == '-' && i
            + 1 < s.len() && s[i + 1] == '-')),
{
    if in_comment(s, i) {
        let j = choose|j: int|
            #![trigger s[j], s[j + 1]]
            0 <= j <= i && j + 1 < s.len() && s[j] == '-' && s[j + 1] == '-' && (forall|m: int|
                j < m <= i ==> #[trigger] s[m] != '\n');
        if j < i {
            assert(forall|m: int| j < m <= i - 1 ==> s[m] != '\n');
            assert(in_comment(s, i - 1));
            assert(s[i] != '\n');
        }
    }
    if i > 0 && in_comment(s, i - 1) && s[i] != '\n' {
        let j = choose|j: int|
            #![trigger s[j], s[j + 1]]
            0 <= j <= i - 1 && j + 1 < s.len() && s[j] == '-' && s[j + 1] == '-' && (forall|m: int|
                j < m <= i - 1 ==> #[trigger] s[m] != '\n');
        assert(forall|m: int| j < m <= i ==> s[m] != '\n');
        assert(in_comment(s, i));
    }
    if s[i] == '-' && i + 1 < s.len() && s[i + 1] == '-' {
        assert(0 <= i <= i && i + 1 < s.len() && s[i] == '-' && s[i + 1] == '-' && (forall|m: int|
            i < m <= i ==> s[m] != '\n'));
        assert(in_comment(s, i));
    }
}

/// How substance-so-far follows from the state one position earlier.
proof fn lemma_substance_step(s: Seq<char>, i: int)
    requires
        0 <= i < s.len(),
    ensures
        substance_before(s, i + 1) == if s[i] == ';' {
            false
        } else {
            substance_before(s, i) || (!is_space(s[i]) && !in_comment(s, i))
        },
{
    if s[i] == ';' {
        assert(!substance_before(s, i + 1)) by {
            if substance_before(s, i + 1) {
                let k = choose|k: int|
                    #![trigger s[k]]
                    0 <= k < i + 1 && !is_space(s[k]) && s[k] != ';' && !in_comment(s, k) && (
                    forall|m: int| k < m < i + 1 ==> #[trigger] s[m] != ';');
                assert(k < i);
                assert(s[i] != ';');
            }
        }
    } else {
        if substance_before(s, i + 1) {
            let k = choose|k: int|
                #![trigger s[k]]
                0 <= k < i + 1 && !is_space(s[k]) && s[k] != ';' && !in_comment(s, k) && (
                forall|m: int| k < m < i + 1 ==> #[trigger] s[m] != ';');
            if k < i {
                assert(forall|m: int| k < m < i ==> s[m] != ';');
                assert(substance_before(s, i));
            } else {
                assert(!is_space(s[i]) && !in_comment(s, i));
            }
        }
        if substance_before(s, i) {
            let k = choose|k: int|
                #![trigger s[k]]
                0 <= k < i && !is_space(s[k]) && s[k] != ';' && !in_comment(s, k) && (forall|m: int|
                    k < m < i ==> #[trigger] s[m] != ';');
            assert(forall|m: int| k < m < i + 1 ==> s[m] != ';');
            assert(substance_before(s, i + 1));
        }
        if !is_space(s[i]) && !in_comment(s, i) {
            assert(0 <= i < i + 1 && !is_space(s[i]) && s[i] != ';' && !in_comment(s, i) && (
            forall|m: int| i < m < i + 1 ==> s[m] != ';'));
            assert(substance_before(s, i + 1));
        }
    }
}

/// How the loose-tail check follows from the state one position earlier.
proof fn lemma_tail_step(s: Seq<char>, i: int)
    requires
        0 <= i < s.len(),
    ensures
        loose_tail(s, i + 1) == if s[i] == ';' {
            false
        } else {
            loose_tail(s, i) || !is_space(s[i])
        },
{
    if s[i] == ';' {
        assert(!loose_tail(s, i + 1)) by {
            if loose_tail(s, i + 1) {
                let k = choose|k: int|
                    #![trigger s[k]]
                    0 <= k < i + 1 && !is_space(s[k]) && s[k] != ';' && (forall|m: int|
                        k < m < i + 1 ==> #[trigger] s[m] != ';');
                assert(k < i);
                assert(s[i] != ';');
            }
        }
    } else {
        if loose_tail(s, i + 1) {
            let k = choose|k: int|
                #![trigger s[k]]
                0 <= k < i + 1 && !is_space(s[k]) && s[k] != ';' && (forall|m: int|
                    k < m < i + 1 ==> #[trigger] s[m] != ';');
            if k < i {
                assert(forall|m: int| k < m < i ==> s[m] != ';');
                assert(loose_tail(s, i));
            } else {
                assert(!is_space(s[i]));
            }
        }
        if loose_tail(s, i) {
            let k = choose|k: int|
                #![trigger s[k]]
                0 <= k < i && !is_space(s[k]) && s[k] != ';' && (forall|m: int|
                    k < m < i ==> #[trigger] s[m] != ';');
            assert(forall|m: int| k < m < i + 1 ==> s[m] != ';');
            assert(loose_tail(s, i + 1));
        }
        if !is_space(s[i]) {
            assert(0 <= i < i + 1 && !is_space(s[i]) && s[i] != ';' && (forall|m: int|
                i < m < i + 1 ==> s[m] != ';'));
            assert(loose_tail(s, i + 1));
        }
    }
}

/// Check a rollback script: does it split into one or more complete
/// statements, with no comment spanning a statement boundary?
pub fn validate_rollback_script(script: &str) -> (r: bool)
    ensures
        r == valid_rollback(script@),
{
    let n = script.unicode_len();
    let mut i: usize = 0;
    let mut cov: bool = false;
    let mut sub: bool = false;
    let mut seen_semi: bool = false;
    let mut semis_ok: bool = true;
    let mut tail_loose: bool = false;
    while i < n
        invariant
            n == script@.len(),
            i <= n,
            cov == (i > 0 && in_comment(script@, i as int - 1)),
            sub == substance_before(script@, i as int),
            seen_semi == (exists|p: int| 0 <= p < i && script@[p] == ';'),
            semis_ok == (forall|p: int|
                0 <= p < i && #[trigger] script@[p] == ';' ==> !in_comment(script@, p)
                    && substance_before(script@, p)),
            tail_loose == loose_tail(script@, i as int),
        decreases n - i,
    {
        let ghost iv = i as int;
        let c = script.get_char(i);
        let cov_here: bool = (cov && c != '\n') || (c == '-' && i + 1 < n && script.get_char(i + 1)
            == '-');
        proof {
            lemma_in_comment_step(script@, iv);
            assert(cov_here == in_comment(script@, iv));
            lemma_substance_step(script@, iv);
            lemma_tail_step(script@, iv);
        }
        if c == ';' {
            semis_ok = semis_ok && !cov_here && sub;
            seen_semi = true;
            sub = false;
            tail_loose = false;
            proof {
                assert(forall|p: int|
                    0 <= p < iv + 1 && #[trigger] script@[p] == ';' ==> p == iv || p < iv);
            }
        } else {
            if !is_space_char(c) && !cov_here {
                sub = true;
            }
            if !is_space_char(c) {
                tail_loose = true;
            }
            proof {
                assert(forall|p: int| 0 <= p < iv + 1 && #[trigger] script@[p] == ';' ==> p < iv);
            }
        }
        cov = cov_here;
        i += 1;
    }
    if seen_semi {
        semis_ok && (!tail_loose || sub)
    } else {
        semis_ok && sub
    }
}

/// Whitespace test on one character.
fn is_space_char(c: char) -> (r: bool)
    ensures
        r == is_space(c),
{
    c == ' ' || c == '\n' || c == '\t' || c == '\r'
}

} // verus!
