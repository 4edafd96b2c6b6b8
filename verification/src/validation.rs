//! Shell-command safety linting: commands destined for `sh -c` are rejected
//! when they are empty, over-long, use a forbidden shell metacharacter, or
//! leave a quote unbalanced.

use crate::strutil::to_chars;
use vstd::prelude::*;
use vstd::string::StringExecFns;

verus! {

/// Why a shell command was rejected.
#[derive(Debug)]
pub enum ValidationError {
    EmptyCommand,
    DangerousPattern(String),
    CommandTooLong,
    InvalidMetacharacter(String),
}

impl ValidationError {
    /// The human-readable description of the error.
    pub fn message(&self) -> (r: String)
        ensures
            match self {
                ValidationError::EmptyCommand => r@ == "Empty command"@,
                ValidationError::DangerousPattern(s) =>
                    r@ == "Command contains dangerous pattern: "@ + s@,
                ValidationError::CommandTooLong =>
                    r@ == "Command too long (max 4096 characters)"@,
                ValidationError::InvalidMetacharacter(s) =>
                    r@ == "Invalid shell metacharacter usage: "@ + s@,
            },
    {
        let mut m = String::new();
        match self {
            ValidationError::EmptyCommand => {
                m.append("Empty command");
            },
            ValidationError::DangerousPattern(s) => {
                m.append("Command contains dangerous pattern: ");
                m.append(s.as_str());
            },
            ValidationError::CommandTooLong => {
                m.append("Command too long (max 4096 characters)");
            },
            ValidationError::InvalidMetacharacter(s) => {
                m.append("Invalid shell metacharacter usage: ");
                m.append(s.as_str());
            },
        }
        m
    }
}

/// Longest accepted command, in characters.
pub const MAX_COMMAND_LENGTH: usize = 4096;

/// `p` occurs in `s` starting at position `i`.
pub open spec fn spec_substr_at(s: Seq<char>, p: Seq<char>, i: int) -> bool {
    0 <= i <= s.len() - p.len() && s.subrange(i, i + p.len()) == p
}

/// `p` occurs contiguously inside `s`.
pub open spec fn spec_has_substr(s: Seq<char>, p: Seq<char>) -> bool {
    exists|i: int| spec_substr_at(s, p, i)
}

/// Substring search.
pub fn has_substr(s: &Vec<char>, p: &Vec<char>) -> (r: bool)
    ensures
        r == spec_has_substr(s@, p@),
{
    let n = s.len();
    let m = p.len();
    if m > n {
        proof {
            if spec_has_substr(s@, p@) {
                let i = choose|i: int| spec_substr_at(s@, p@, i);
            }
        }
        return false;
    }
    if m == 0 {
        proof {
            assert(s@.subrange(0, 0) =~= p@);
            assert(spec_substr_at(s@, p@, 0));
        }
        return true;
    }
    let mut i: usize = 0;
    while i <= n - m
        invariant
            n == s@.len(),
            m == p@.len(),
            0 < m <= n,
            i <= n - m + 1,
            forall|k: int| 0 <= k < i ==> !spec_substr_at(s@, p@, k),
        decreases n - m + 1 - i,
    {
        let mut j: usize = 0;
        let mut matches = true;
        while j < m
            invariant
                n == s@.len(),
                m == p@.len(),
                i + m <= n,
                j <= m,
                matches ==> forall|t: int| 0 <= t < j ==> s@[i + t] == p@[t],
                !matches ==> !spec_substr_at(s@, p@, i as int),
            decreases m - j,
        {
            if s[i + j] != p[j] {
                proof {
                    assert(s@.subrange(i as int, i + m)[j as int] == s@[i + j]);
                }
                matches = false;
                j = m;
            } else {
                j = j + 1;
            }
        }
        if matches {
            proof {
                assert(s@.subrange(i as int, i + m) =~= p@);
                assert(spec_substr_at(s@, p@, i as int));
            }
            return true;
        }
        i = i + 1;
    }
    proof {
        if spec_has_substr(s@, p@) {
            let k = choose|k: int| spec_substr_at(s@, p@, k);
            assert(k < i);
        }
    }
    false
}

/// ASCII whitespace.
pub open spec fn spec_is_space(c: char) -> bool {
    c == ' ' || c == '\t' || c == '\n' || c == '\r'
}

/// The command holds nothing but whitespace.
pub open spec fn spec_blank(s: Seq<char>) -> bool {
    forall|k: int| 0 <= k < s.len() ==> spec_is_space(#[trigger] s[k])
}

/// How many times `c` occurs in `s`.
pub open spec fn spec_count(s: Seq<char>, c: char) -> nat
    decreases s.len(),
{
    if s.len() == 0 {
        0
    } else {
        spec_count(s.drop_last(), c) + if s.last() == c { 1nat } else { 0nat }
    }
}

fn count_char(s: &Vec<char>, c: char) -> (r: usize)
    ensures
        r == spec_count(s@, c),
{
    let mut cnt: usize = 0;
    let mut i: usize = 0;
    while i < s.len()
        invariant
            i <= s@.len(),
            cnt <= i,
            cnt == spec_count(s@.subrange(0, i as int), c),
        decreases s@.len() - i,
    {
        proof {
            assert(s@.subrange(0, i + 1).drop_last() =~= s@.subrange(0, i as int));
            assert(s@.subrange(0, i + 1).last() == s@[i as int]);
        }
        if s[i] == c {
            cnt = cnt + 1;
        }
        i = i + 1;
    }
    proof {
        assert(s@.subrange(0, s@.len() as int) =~= s@);
    }
    cnt
}

/// The message for the first forbidden pattern that `s` contains, if any.
/// Patterns are checked in a fixed order, so a plain `|` is reported as a
/// pipe even when it is part of `||`.
pub open spec fn spec_dangerous_msg(s: Seq<char>) -> Option<Seq<char>> {
    if spec_has_substr(s, "|"@) {
        Some("Contains pipes ('|'). Use a pixi task instead."@)
    } else if spec_has_substr(s, ";"@) {
        Some("Contains semicolon chaining (';'). Use a pixi task instead."@)
    } else if spec_has_substr(s, "&&"@) {
        Some("Contains AND chaining ('&&'). Use a pixi task instead."@)
    } else if spec_has_substr(s, "||"@) {
        Some("Contains OR chaining ('||'). Use a pixi task instead."@)
    } else if spec_has_substr(s, "$("@) {
        Some("Contains command substitution ('$('). Use a pixi task instead."@)
    } else if spec_has_substr(s, "`"@) {
        Some("Contains backtick substitution ('`'). Use a pixi task instead."@)
    } else if spec_has_substr(s, ">"@) {
        Some("Contains output redirection ('>'). Use a pixi task instead."@)
    } else if spec_has_substr(s, "<"@) {
        Some("Contains input redirection ('<'). Use a pixi task instead."@)
    } else if spec_has_substr(s, "&"@) {
        Some("Contains background execution ('&'). Use a pixi task instead."@)
    } else {
        None
    }
}

/// A shell command that passes every safety check.
pub open spec fn spec_command_ok(s: Seq<char>) -> bool {
    &&& !spec_blank(s)
    &&& s.len() <= MAX_COMMAND_LENGTH
    &&& spec_dangerous_msg(s) is None
    &&& spec_count(s, '\'') % 2 == 0
    &&& spec_count(s, '"') % 2 == 0
}

/// Validate a shell command for safety. Rejects, in this order: a blank
/// command; one over the length cap; one holding a forbidden pattern; one
/// with an odd number of single or double quotes.
pub fn validate_shell_command(command: &str) -> (r: Result<(), ValidationError>)
    ensures
        (r matches Err(e) && e is EmptyCommand) <==> spec_blank(command@),
        (r matches Err(e) && e is CommandTooLong) <==> (!spec_blank(command@)
            && command@.len() > MAX_COMMAND_LENGTH),
        (r matches Err(e) && e is DangerousPattern) <==> (!spec_blank(command@)
            && command@.len() <= MAX_COMMAND_LENGTH
            && spec_dangerous_msg(command@) is Some),
        r matches Err(ValidationError::DangerousPattern(m))
            ==> Some(m@) == spec_dangerous_msg(command@),
        (r matches Err(e) && e is InvalidMetacharacter) <==> (!spec_blank(command@)
            && command@.len() <= MAX_COMMAND_LENGTH
            && spec_dangerous_msg(command@) is None
            && (spec_count(command@, '\'') % 2 != 0 || spec_count(command@, '"') % 2 != 0)),
        r is Ok <==> spec_command_ok(command@),
{
    let chars = to_chars(command);
    let mut all_space = true;
    let mut i: usize = 0;
    while i < chars.len()
        invariant
            chars@ == command@,
            i <= chars@.len(),
            all_space <==> spec_blank(chars@.subrange(0, i as int)),
        decreases chars@.len() - i,
    {
        let c = chars[i];
        proof {
            assert(chars@.subrange(0, i + 1)[i as int] == chars@[i as int]);
            assert forall|k: int| 0 <= k < i
                implies chars@.subrange(0, i + 1)[k] == chars@.subrange(0, i as int)[k] by {}
        }
        if !(c == ' ' || c == '\t' || c == '\n' || c == '\r') {
            all_space = false;
            proof {
                assert(!spec_is_space(chars@.subrange(0, i + 1)[i as int]));
            }
        } else {
            proof {
                if !all_space {
                    let k = choose|k: int|
                        0 <= k < i && !spec_is_space(#[trigger] chars@.subrange(0, i as int)[k]);
                    assert(!spec_is_space(chars@.subrange(0, i + 1)[k]));
                } else {
                    assert forall|k: int| 0 <= k < i + 1
                        implies spec_is_space(#[trigger] chars@.subrange(0, i + 1)[k]) by {
                        if k < i {
                            assert(spec_is_space(chars@.subrange(0, i as int)[k]));
                        }
                    }
                }
            }
        }
        i = i + 1;
    }
    proof {
        assert(chars@.subrange(0, chars@.len() as int) =~= chars@);
    }
    if all_space {
        return Err(ValidationError::EmptyCommand);
    }
    if chars.len() > MAX_COMMAND_LENGTH {
        return Err(ValidationError::CommandTooLong);
    }
    if has_substr(&chars, &to_chars("|")) {
        return Err(ValidationError::DangerousPattern(String::from_str(
            "Contains pipes ('|'). Use a pixi task instead.",
        )));
    }
    if has_substr(&chars, &to_chars(";")) {
        return Err(ValidationError::DangerousPattern(String::from_str(
            "Contains semicolon chaining (';'). Use a pixi task instead.",
        )));
    }
    if has_substr(&chars, &to_chars("&&")) {
        return Err(ValidationError::DangerousPattern(String::from_str(
            "Contains AND chaining ('&&'). Use a pixi task instead.",
        )));
    }
    if has_substr(&chars, &to_chars("||")) {
        return Err(ValidationError::DangerousPattern(String::from_str(
            "Contains OR chaining ('||'). Use a pixi task instead.",
        )));
    }
    if has_substr(&chars, &to_chars("$(")) {
        return Err(ValidationError::DangerousPattern(String::from_str(
            "Contains command substitution ('$('). Use a pixi task instead.",
        )));
    }
    if has_substr(&chars, &to_chars("`")) {
        return Err(ValidationError::DangerousPattern(String::from_str(
            "Contains backtick substitution ('`'). Use a pixi task instead.",
        )));
    }
    if has_substr(&chars, &to_chars(">")) {
        return Err(ValidationError::DangerousPattern(String::from_str(
            "Contains output redirection ('>'). Use a pixi task instead.",
        )));
    }
    if has_substr(&chars, &to_chars("<")) {
        return Err(ValidationError::DangerousPattern(String::from_str(
            "Contains input redirection ('<'). Use a pixi task instead.",
        )));
    }
    if has_substr(&chars, &to_chars("&")) {
        return Err(ValidationError::DangerousPattern(String::from_str(
            "Contains background execution ('&'). Use a pixi task instead.",
        )));
    }
    if count_char(&chars, '\'') % 2 != 0 {
        return Err(ValidationError::InvalidMetacharacter(String::from_str(
            "unbalanced single quotes",
        )));
    }
    if count_char(&chars, '"') % 2 != 0 {
        return Err(ValidationError::InvalidMetacharacter(String::from_str(
            "unbalanced double quotes",
        )));
    }
    Ok(())
}

} // verus!
