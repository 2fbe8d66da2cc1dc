use vstd::prelude::*;

use vstd::string::{StrSliceExecFns, StringSliceAdditionalSpecFns};
use vstd::utf8::encode_utf8;

use crate::errors::ErrorKind;
use crate::row::{stored_row, valid_row, Row, RowV};
use crate::table::{Table, TABLE_MAX_ROWS};

verus! {

/// The statement kinds the pipeline recognizes. Anything but the two
/// keywords is `Unrecognized`: terminal, reported, never executed.
#[derive(Clone, Copy, Debug, PartialEq, Eq, Structural)]
pub enum StatementType {
    Insert,
    Select,
    Unrecognized,
}

/// The kind that a first token maps to: exactly the keyword `insert` or
/// `select`, anything else unrecognized.
pub open spec fn classify_spec(token: Seq<char>) -> StatementType {
    if token == "insert"@ {
        StatementType::Insert
    } else if token == "select"@ {
        StatementType::Select
    } else {
        StatementType::Unrecognized
    }
}

/// True exactly when the two strings hold the same characters.
fn str_eq(a: &str, b: &str) -> (r: bool)
    ensures
        r == (a@ == b@),
{
    let a_owned: String = a.to_owned();
    let b_owned: String = b.to_owned();
    a_owned == b_owned
}

/// Maps a statement's first token to its kind.
pub fn classify(token: &str) -> (t: StatementType)
    ensures
        t == classify_spec(token@),
{
    if str_eq(token, "insert") {
        StatementType::Insert
    } else if str_eq(token, "select") {
        StatementType::Select
    } else {
        StatementType::Unrecognized
    }
}

/// A classified statement, ready for execution.
pub struct Statement {
    pub statement_type: StatementType,
}

impl Statement {
    /// Classifies a statement by its first token.
    pub fn new(token: String) -> (s: Statement)
        ensures
            s.statement_type == classify_spec(token@),
    {
        Statement { statement_type: classify(token.as_str()) }
    }
}

/// An ASCII decimal digit.
pub open spec fn is_digit(b: u8) -> bool {
    48 <= b <= 57
}

/// Every byte is an ASCII decimal digit.
pub open spec fn all_digits(s: Seq<u8>) -> bool {
    forall|i: int| 0 <= i < s.len() ==> is_digit(#[trigger] s[i])
}

/// The value of a sequence of ASCII decimal digits, most significant first.
pub open spec fn digits_value(s: Seq<u8>) -> int
    decreases s.len(),
{
    if s.len() == 0 {
        0
    } else {
        digits_value(s.drop_last()) * 10 + (s.last() - 48)
    }
}

/// What a token parses to as a 32-bit signed integer: an optional leading
/// minus sign, then one or more ASCII decimal digits, with the value in
/// range; anything else parses to nothing.
pub open spec fn parse_i32_spec(s: Seq<u8>) -> Option<i32> {
    if s.len() > 0 && s[0] == 45 {
        let d = s.subrange(1, s.len() as int);
        if d.len() > 0 && all_digits(d) && -digits_value(d) >= i32::MIN {
            Some((-digits_value(d)) as i32)
        } else {
            None
        }
    } else if s.len() > 0 && all_digits(s) && digits_value(s) <= i32::MAX {
        Some(digits_value(s) as i32)
    } else {
        None
    }
}

/// A sequence of digits has a nonnegative value.
proof fn lemma_digits_value_nonneg(s: Seq<u8>)
    requires
        all_digits(s),
    ensures
        digits_value(s) >= 0,
    decreases s.len(),
{
    if s.len() > 0 {
        lemma_digits_value_nonneg(s.drop_last());
    }
}

/// Reading further digits never shrinks the value.
proof fn lemma_digits_value_prefix(s: Seq<u8>, k: int)
    requires
        0 <= k <= s.len(),
        all_digits(s),
    ensures
        digits_value(s.subrange(0, k)) <= digits_value(s),
    decreases s.len() - k,
{
    if k == s.len() {
        assert(s.subrange(0, k) =~= s);
    } else {
        let p = s.subrange(0, k);
        let q = s.subrange(0, k + 1);
        assert(q.drop_last() =~= p);
        assert(all_digits(p));
        lemma_digits_value_nonneg(p);
        assert(digits_value(q) == digits_value(p) * 10 + (q.last() - 48));
        lemma_digits_value_prefix(s, k + 1);
    }
}

/// Parses a token as a 32-bit signed integer: an optional minus sign, one
/// or more decimal digits, value in range; `None` for anything else.
pub fn parse_i32(token: &str) -> (r: Option<i32>)
    ensures
        r == parse_i32_spec(token.spec_bytes()),
{
    let bytes = token.as_bytes_vec();
    let n = bytes.len();
    let neg = n > 0 && bytes[0] == 45;
    let start: usize = if neg {
        1
    } else {
        0
    };
    if n == start {
        return None;
    }
    let ghost d = bytes@.subrange(start as int, n as int);
    let mut acc: i64 = 0;
    let mut i: usize = start;
    while i < n
        invariant
            start <= i <= n == bytes@.len(),
            n > start,
            bytes@ == token.spec_bytes(),
            d == bytes@.subrange(start as int, n as int),
            neg ==> bytes@[0] == 45 && start == 1,
            !neg ==> start == 0 && !(n > 0 && bytes@[0] == 45),
            all_digits(bytes@.subrange(start as int, i as int)),
            acc == digits_value(bytes@.subrange(start as int, i as int)),
            0 <= acc <= 2147483648,
        decreases n - i,
    {
        let c = bytes[i];
        if c < 48 || c > 57 {
            proof {
                assert(!is_digit(d[i - start]));
            }
            return None;
        }
        proof {
            let p = bytes@.subrange(start as int, i as int);
            let q = bytes@.subrange(start as int, i + 1);
            assert(q.drop_last() =~= p);
            assert(q.last() == bytes@[i as int]);
            assert(digits_value(q) == digits_value(p) * 10 + (bytes@[i as int] - 48));
        }
        acc = acc * 10 + (c - 48) as i64;
        i += 1;
        if acc > 2147483648 {
            proof {
                if !neg {
                    assert(bytes@ =~= d);
                }
                if all_digits(d) {
                    assert(bytes@.subrange(start as int, i as int) =~= d.subrange(
                        0,
                        i - start,
                    ));
                    lemma_digits_value_prefix(d, i - start);
                }
            }
            return None;
        }
    }
    proof {
        assert(bytes@.subrange(start as int, i as int) =~= d);
        if !neg {
            assert(bytes@ =~= d);
        }
    }
    if neg {
        Some((-acc) as i32)
    } else if acc > 2147483647 {
        None
    } else {
        Some(acc as i32)
    }
}

/// The outcome of one executed statement: success, with the rows a select
/// read back, or an error with its kind and a descriptive message.
pub enum ExecutionResult {
    Success(Vec<Row>),
    Error(ErrorKind, String),
}

/// The kind of a tokenized command, judged by its first token; an empty
/// command is unrecognized.
pub open spec fn stmt_kind(tokens: Seq<String>) -> StatementType {
    if tokens.len() == 0 {
        StatementType::Unrecognized
    } else {
        classify_spec(tokens[0]@)
    }
}

/// The row an insert statement's three arguments denote: the parsed id and
/// the two text fields as their byte encodings.
pub open spec fn insert_row_v(tokens: Seq<String>) -> RowV {
    RowV {
        id: parse_i32_spec(encode_utf8(tokens[1]@)).unwrap(),
        username: encode_utf8(tokens[2]@),
        email: encode_utf8(tokens[3]@),
    }
}

/// The row an insert statement carries, if its syntax is right: exactly
/// three arguments after the keyword, the first a 32-bit signed integer.
pub open spec fn insert_args(tokens: Seq<String>) -> Option<RowV> {
    if tokens.len() == 4 && parse_i32_spec(encode_utf8(tokens[1]@)) is Some {
        Some(insert_row_v(tokens))
    } else {
        None
    }
}

/// Builds the error outcome for `kind`.
fn error_result(kind: ErrorKind) -> (r: ExecutionResult)
    ensures
        r matches ExecutionResult::Error(k, m) && k == kind && m@ == kind.message_spec(),
{
    ExecutionResult::Error(kind, kind.message())
}

/// Executes one tokenized statement against a table: the whole line split
/// on whitespace, keyword first. An insert takes exactly `id`, `username`
/// and `email` arguments and appends the row; a select ignores trailing
/// arguments and reads every row back in insertion order; every failure
/// reports its exact kind and leaves the table unchanged.
pub fn execute(tokens: &Vec<String>, table: &mut Table) -> (r: ExecutionResult)
    requires
        old(table).wf(),
    ensures
        final(table).wf(),
        match r {
            ExecutionResult::Success(rows) => {
                &&& stmt_kind(tokens@) != StatementType::Unrecognized
                &&& (stmt_kind(tokens@) == StatementType::Select ==> {
                    &&& final(table)@ == old(table)@
                    &&& rows@.len() == old(table)@.len()
                    &&& forall|i: int|
                        0 <= i < rows@.len() ==> (#[trigger] rows@[i])@ == old(table)@[i]
                })
                &&& (stmt_kind(tokens@) == StatementType::Insert ==> {
                    &&& insert_args(tokens@) matches Some(v)
                    &&& valid_row(insert_args(tokens@).unwrap())
                    &&& old(table)@.len() < TABLE_MAX_ROWS
                    &&& final(table)@ == old(table)@.push(
                        stored_row(insert_args(tokens@).unwrap()),
                    )
                    &&& rows@.len() == 0
                })
            },
            ExecutionResult::Error(kind, msg) => {
                &&& final(table)@ == old(table)@
                &&& msg@ == kind.message_spec()
                &&& match stmt_kind(tokens@) {
                    StatementType::Unrecognized => kind == ErrorKind::SyntaxError,
                    StatementType::Select => false,
                    StatementType::Insert => match insert_args(tokens@) {
                        None => kind == ErrorKind::SyntaxError,
                        Some(v) => {
                            &&& !valid_row(v) || old(table)@.len() == TABLE_MAX_ROWS
                            &&& (kind == ErrorKind::FieldTooLong <==> !valid_row(v))
                            &&& (kind == ErrorKind::TableFull <==> valid_row(v) && old(
                                table,
                            )@.len() == TABLE_MAX_ROWS)
                        },
                    },
                }
            },
        },
{
    if tokens.len() == 0 {
        return error_result(ErrorKind::SyntaxError);
    }
    let kind = classify(tokens[0].as_str());
    match kind {
        StatementType::Unrecognized => error_result(ErrorKind::SyntaxError),
        StatementType::Select => {
            let rows = table.scan();
            ExecutionResult::Success(rows)
        },
        StatementType::Insert => {
            if tokens.len() != 4 {
                return error_result(ErrorKind::SyntaxError);
            }
            let id = match parse_i32(tokens[1].as_str()) {
                Some(id) => id,
                None => {
                    return error_result(ErrorKind::SyntaxError);
                },
            };
            let username = tokens[2].as_str().as_bytes_vec();
            let email = tokens[3].as_str().as_bytes_vec();
            let row = Row { id, username, email };
            proof {
                assert(row@ == insert_args(tokens@).unwrap());
            }
            match table.insert(&row) {
                Ok(()) => ExecutionResult::Success(Vec::new()),
                Err(e) => error_result(e),
            }
        },
    }
}

} // verus!
