//! Trusted bindings to the JSON parsers.
//!
//! The field configuration and the overflow lists are JSON documents of
//! outside collaborators. The library reads them through three member
//! extractions — parse the document as an array, then take one named
//! member of each element as a plain value — whose results are
//! deterministic in the document and the key alone, and so carry names
//! that the session's contracts are stated over.
//!
//! json5's parser recurses once per nesting level with no depth limit of
//! its own, so the json5 extractions demand a bound on the text's
//! structural bracket nesting, which callers check first with a scanner
//! that follows the grammar's lexical rules: brackets inside string
//! literals and comments are not structural and do not count. The
//! parser only descends through structural brackets, so the bound
//! bounds its recursion; serde_json enforces its own limit.

use vstd::prelude::*;

use vstd::string::StringSliceAdditionalSpecFns;

verus! {

/// The deepest structural bracket nesting a configuration document may
/// use.
pub const MAX_JSON_DEPTH: u32 = 128;

/// The lexical context of a position in a JSON5 document: plain text, a
/// double- or single-quoted string (possibly just after a backslash), a
/// possible comment opener, a line comment (tracking a possible
/// multi-byte line terminator), or a block comment (possibly just after
/// a star). Brackets are structural only in plain text.
#[derive(Clone, Copy, Debug, PartialEq, Eq, Structural)]
pub enum LexState {
    Normal,
    Dq,
    DqEsc,
    Sq,
    SqEsc,
    Slash,
    Line,
    LineE2,
    LineE280,
    Block,
    BlockStar,
}

/// How one byte moves the structural depth: brackets and braces count,
/// everything else does not.
pub open spec fn bracket_delta(b: u8) -> int {
    if b == 91 || b == 123 {
        1
    } else if b == 93 || b == 125 {
        -1
    } else {
        0
    }
}

/// The lexical context after reading `b` in context `st`, following the
/// JSON5 lexical grammar: `"` and `'` open strings, a backslash escapes
/// one byte within them, `//` opens a line comment ended by a line
/// terminator (LF, CR, or the three-byte U+2028/U+2029), and `/*` opens
/// a block comment ended by `*/`. A lone `/` (a syntax error to the
/// parser) falls back to plain text, which can only overcount.
pub open spec fn lex_step(st: LexState, b: u8) -> LexState {
    match st {
        LexState::Normal => if b == 34 {
            LexState::Dq
        } else if b == 39 {
            LexState::Sq
        } else if b == 47 {
            LexState::Slash
        } else {
            LexState::Normal
        },
        LexState::Dq => if b == 92 {
            LexState::DqEsc
        } else if b == 34 {
            LexState::Normal
        } else {
            LexState::Dq
        },
        LexState::DqEsc => LexState::Dq,
        LexState::Sq => if b == 92 {
            LexState::SqEsc
        } else if b == 39 {
            LexState::Normal
        } else {
            LexState::Sq
        },
        LexState::SqEsc => LexState::Sq,
        LexState::Slash => if b == 47 {
            LexState::Line
        } else if b == 42 {
            LexState::Block
        } else if b == 34 {
            LexState::Dq
        } else if b == 39 {
            LexState::Sq
        } else {
            LexState::Normal
        },
        LexState::Line => if b == 10 || b == 13 {
            LexState::Normal
        } else if b == 226 {
            LexState::LineE2
        } else {
            LexState::Line
        },
        LexState::LineE2 => if b == 10 || b == 13 {
            LexState::Normal
        } else if b == 128 {
            LexState::LineE280
        } else if b == 226 {
            LexState::LineE2
        } else {
            LexState::Line
        },
        LexState::LineE280 => if b == 10 || b == 13 || b == 168 || b == 169 {
            LexState::Normal
        } else if b == 226 {
            LexState::LineE2
        } else {
            LexState::Line
        },
        LexState::Block => if b == 42 {
            LexState::BlockStar
        } else {
            LexState::Block
        },
        LexState::BlockStar => if b == 47 {
            LexState::Normal
        } else if b == 42 {
            LexState::BlockStar
        } else {
            LexState::Block
        },
    }
}

/// The depth contribution of `b` read in context `st`: only plain-text
/// brackets count (after a lone `/`, the byte is treated as plain
/// text).
pub open spec fn lex_delta(st: LexState, b: u8) -> int {
    match st {
        LexState::Normal => bracket_delta(b),
        LexState::Slash => if b == 47 || b == 42 {
            0
        } else {
            bracket_delta(b)
        },
        _ => 0,
    }
}

/// The lexical context after the first `i` bytes.
pub open spec fn state_at(b: Seq<u8>, i: int) -> LexState
    decreases i,
{
    if i <= 0 {
        LexState::Normal
    } else {
        lex_step(state_at(b, i - 1), b[i - 1])
    }
}

/// The structural bracket depth after the first `i` bytes: brackets
/// inside string literals and comments do not move it.
pub open spec fn depth_at(b: Seq<u8>, i: int) -> int
    decreases i,
{
    if i <= 0 {
        0
    } else {
        depth_at(b, i - 1) + lex_delta(state_at(b, i - 1), b[i - 1])
    }
}

/// No prefix of `b` opens more than `limit` structural brackets.
pub open spec fn depth_bounded(b: Seq<u8>, limit: int) -> bool {
    forall|i: int| 0 <= i <= b.len() ==> depth_at(b, i) <= limit
}

/// Check the structural bracket-depth bound of a document.
pub fn depth_ok(bytes: &[u8], limit: u32) -> (r: bool)
    ensures
        r == depth_bounded(bytes@, limit as int),
{
    let mut st: LexState = LexState::Normal;
    let mut d: i128 = 0;
    let mut i: usize = 0;
    while i < bytes.len()
        invariant
            i <= bytes@.len(),
            st == state_at(bytes@, i as int),
            d == depth_at(bytes@, i as int),
            -(i as int) <= d <= i as int,
            d <= limit as int,
            forall|j: int| 0 <= j <= i ==> depth_at(bytes@, j) <= limit as int,
        decreases bytes@.len() - i,
    {
        let b: u8 = bytes[i];
        let counts: bool = match st {
            LexState::Normal => true,
            LexState::Slash => !(b == 47 || b == 42),
            _ => false,
        };
        let delta: i128 = if counts {
            if b == 91 || b == 123 {
                1
            } else if b == 93 || b == 125 {
                -1
            } else {
                0
            }
        } else {
            0
        };
        assert(delta == lex_delta(st, b));
        st = match st {
            LexState::Normal => if b == 34 {
                LexState::Dq
            } else if b == 39 {
                LexState::Sq
            } else if b == 47 {
                LexState::Slash
            } else {
                LexState::Normal
            },
            LexState::Dq => if b == 92 {
                LexState::DqEsc
            } else if b == 34 {
                LexState::Normal
            } else {
                LexState::Dq
            },
            LexState::DqEsc => LexState::Dq,
            LexState::Sq => if b == 92 {
                LexState::SqEsc
            } else if b == 39 {
                LexState::Normal
            } else {
                LexState::Sq
            },
            LexState::SqEsc => LexState::Sq,
            LexState::Slash => if b == 47 {
                LexState::Line
            } else if b == 42 {
                LexState::Block
            } else if b == 34 {
                LexState::Dq
            } else if b == 39 {
                LexState::Sq
            } else {
                LexState::Normal
            },
            LexState::Line => if b == 10 || b == 13 {
                LexState::Normal
            } else if b == 226 {
                LexState::LineE2
            } else {
                LexState::Line
            },
            LexState::LineE2 => if b == 10 || b == 13 {
                LexState::Normal
            } else if b == 128 {
                LexState::LineE280
            } else if b == 226 {
                LexState::LineE2
            } else {
                LexState::Line
            },
            LexState::LineE280 => if b == 10 || b == 13 || b == 168 || b == 169 {
                LexState::Normal
            } else if b == 226 {
                LexState::LineE2
            } else {
                LexState::Line
            },
            LexState::Block => if b == 42 {
                LexState::BlockStar
            } else {
                LexState::Block
            },
            LexState::BlockStar => if b == 47 {
                LexState::Normal
            } else if b == 42 {
                LexState::BlockStar
            } else {
                LexState::Block
            },
        };
        d = d + delta;
        i = i + 1;
        if d > limit as i128 {
            proof {
                assert(depth_at(bytes@, i as int) > limit as int);
            }
            return false;
        }
    }
    true
}

/// What `json5_str_members_exec` answers: `None` when the text is not a
/// JSON5 array; else, per element, its string member under the key.
pub uninterp spec fn json5_str_members(s: Seq<char>, key: Seq<char>) -> Option<
    Seq<Option<Seq<char>>>,
>;

/// What `json5_i64_members_exec` answers: `None` when the text is not a
/// JSON5 array; else, per element, its integer member under the key.
pub uninterp spec fn json5_i64_members(s: Seq<char>, key: Seq<char>) -> Option<Seq<Option<int>>>;

/// What `json_u64_members_exec` answers: `None` when the bytes are not
/// a JSON array; else, per element, its unsigned-integer member under
/// the key.
pub uninterp spec fn json_u64_members(b: Seq<u8>, key: Seq<char>) -> Option<Seq<Option<int>>>;

pub open spec fn opt_string_view(o: Option<String>) -> Option<Seq<char>> {
    match o {
        Some(s) => Some(s@),
        None => None,
    }
}

pub open spec fn opt_i64_view(o: Option<i64>) -> Option<int> {
    match o {
        Some(v) => Some(v as int),
        None => None,
    }
}

pub open spec fn opt_u64_view(o: Option<u64>) -> Option<int> {
    match o {
        Some(v) => Some(v as int),
        None => None,
    }
}

/// Relies on json5::from_str::<Vec<serde_json::Value>> — whose
/// recursion per structural nesting level is why the depth bound is
/// demanded — and, per element, on serde_json::Value::get and
/// Value::as_str: the
/// string member under `key` of each element of the array, in order.
/// Deterministic in the text and the key alone.
#[verifier::external_body]
pub(crate) fn json5_str_members_exec(text: &str, key: &str) -> (r: Option<Vec<Option<String>>>)
    requires
        depth_bounded(text.spec_bytes(), MAX_JSON_DEPTH as int),
    ensures
        r is Some <==> json5_str_members(text@, key@) is Some,
        r matches Some(v) ==> v@.len() == json5_str_members(text@, key@).unwrap().len()
            && forall|i: int|
            0 <= i < v@.len() ==> opt_string_view(#[trigger] v@[i]) == json5_str_members(
                text@,
                key@,
            ).unwrap()[i],
{
    match json5::from_str::<Vec<serde_json::Value>>(text) {
        Ok(vs) => Some(
            vs.iter().map(
                |v| v.get(key).and_then(|m| m.as_str()).map(|s| s.to_string()),
            ).collect(),
        ),
        Err(_) => None,
    }
}

/// Relies on json5::from_str::<Vec<serde_json::Value>> (depth bound as
/// above) and, per element, on serde_json::Value::get and
/// Value::as_i64: the signed-integer member under `key` of each element
/// of the array, in order. Deterministic in the text and the key alone.
#[verifier::external_body]
pub(crate) fn json5_i64_members_exec(text: &str, key: &str) -> (r: Option<Vec<Option<i64>>>)
    requires
        depth_bounded(text.spec_bytes(), MAX_JSON_DEPTH as int),
    ensures
        r is Some <==> json5_i64_members(text@, key@) is Some,
        r matches Some(v) ==> v@.len() == json5_i64_members(text@, key@).unwrap().len()
            && forall|i: int|
            0 <= i < v@.len() ==> opt_i64_view(#[trigger] v@[i]) == json5_i64_members(
                text@,
                key@,
            ).unwrap()[i],
{
    match json5::from_str::<Vec<serde_json::Value>>(text) {
        Ok(vs) => Some(vs.iter().map(|v| v.get(key).and_then(|m| m.as_i64())).collect()),
        Err(_) => None,
    }
}

/// Relies on serde_json::from_slice::<Vec<serde_json::Value>> (which
/// enforces its own recursion limit and returns an error beyond it)
/// and, per element, on serde_json::Value::get and Value::as_u64: the
/// unsigned-integer member under `key` of each element of the array, in
/// order. Deterministic in the bytes and the key alone.
#[verifier::external_body]
pub(crate) fn json_u64_members_exec(bytes: &[u8], key: &str) -> (r: Option<Vec<Option<u64>>>)
    ensures
        r is Some <==> json_u64_members(bytes@, key@) is Some,
        r matches Some(v) ==> v@.len() == json_u64_members(bytes@, key@).unwrap().len()
            && forall|i: int|
            0 <= i < v@.len() ==> opt_u64_view(#[trigger] v@[i]) == json_u64_members(
                bytes@,
                key@,
            ).unwrap()[i],
{
    match serde_json::from_slice::<Vec<serde_json::Value>>(bytes) {
        Ok(vs) => Some(vs.iter().map(|v| v.get(key).and_then(|m| m.as_u64())).collect()),
        Err(_) => None,
    }
}

} // verus!
