//! The expression parser.
//!
//! [`parse`] turns a raw string into an [`ArmExpression`] or a typed
//! [`ParseError`]; it is a pure, total function of its input and never
//! panics.  Its contract ties the executable code to a family of spec
//! functions, [`parse_spec`] foremost, that state the grammar directly
//! over sequences of characters:
//!
//! ```text
//! expression := '[' call ']' | literal-text
//! call       := identifier '(' arglist? ')'
//! arglist    := expr (',' expr)*
//! expr       := call | quoted-string | number | boolean | bare-identifier
//! ```
//!
//! Rules, stated here once and pinned down by the spec functions below:
//! - The empty string parses to [`ArmExpression::Empty`].
//! - `parameters(name)` and `[parameters(name)]` parse alike, to
//!   [`ArmExpression::Parameter`]; the same holds for `variables`.  The
//!   name may be quoted (`parameters('x')`) or bare (`parameters(x)`).
//! - Any other input wrapped in a matching `[`...`]` must be a call of a
//!   function in the closed set; an unknown identifier fails with
//!   [`ParseError::UnknownFunction`].
//! - Argument splitting honours parenthesis nesting and single-quoted
//!   spans (with `''` as the escaped quote), so commas inside nested
//!   calls or string literals never split an argument.
//! - Atoms follow one uniform policy at every level: quoted text becomes
//!   a string literal with escapes undone; text matching the decimal
//!   grammar of a 64-bit float becomes a numeric literal (kept as text);
//!   `true`/`false` case-insensitively become boolean literals; a bare
//!   token that begins like a number but is not one fails with
//!   [`ParseError::InvalidNumber`]; any other bare token falls back to a
//!   verbatim string literal, matching the permissive legacy behaviour.
//! - Recursion through function arguments is bounded by [`MAX_DEPTH`];
//!   deeper nesting fails with [`ParseError::RecursionLimit`].
//!
//! The grammar is a deliberately restricted subset of the full ARM
//! expression language: property and index access chains (such as
//! `reference(x).properties.y` or `arr[0]`) and the doubled-bracket
//! escape for a literal leading `[` are not part of it; such inputs fall
//! under the rules above as ordinary text.

use vstd::prelude::*;

use crate::ast::ArmExpression;
use crate::ast::ExprView;
use crate::ast::FunctionExpression;
use crate::ast::FunctionName;
use crate::ast::LiteralValue;
use crate::ast::LiteralView;

verus! {

/// How deep function calls may nest before parsing fails with
/// [`ParseError::RecursionLimit`].
pub const MAX_DEPTH: u64 = 64;

/// A typed parsing failure.  Parsing never panics: every malformed input
/// is reported through one of these.
#[derive(Debug, Clone, PartialEq)]
pub enum ParseError {
    /// A parenthesis closed nothing, stayed open, or a bracketed
    /// expression held no call at all.
    UnbalancedParenthesis,
    /// A single-quoted span was still open at the end of its text.
    UnterminatedString,
    /// A bare token began like a number but did not match the decimal
    /// grammar of a 64-bit float.
    InvalidNumber,
    /// The called identifier is not in the closed set of known functions.
    UnknownFunction(String),
    /// A call had no identifier before its opening parenthesis.
    EmptyFunctionName,
    /// Calls nested more than [`MAX_DEPTH`] levels deep.
    RecursionLimit,
}

/// The mathematical view of a [`ParseError`].
pub enum ParseErrorView {
    UnbalancedParenthesis,
    UnterminatedString,
    InvalidNumber,
    UnknownFunction(Seq<char>),
    EmptyFunctionName,
    RecursionLimit,
}

impl DeepView for ParseError {
    type V = ParseErrorView;

    open spec fn deep_view(&self) -> ParseErrorView {
        match self {
            ParseError::UnbalancedParenthesis => ParseErrorView::UnbalancedParenthesis,
            ParseError::UnterminatedString => ParseErrorView::UnterminatedString,
            ParseError::InvalidNumber => ParseErrorView::InvalidNumber,
            ParseError::UnknownFunction(n) => ParseErrorView::UnknownFunction(n@),
            ParseError::EmptyFunctionName => ParseErrorView::EmptyFunctionName,
            ParseError::RecursionLimit => ParseErrorView::RecursionLimit,
        }
    }
}

/// The view of a whole parsing outcome.
pub open spec fn expr_result_view(r: Result<ArmExpression, ParseError>) -> Result<
    ExprView,
    ParseErrorView,
> {
    match r {
        Ok(e) => Ok(e.deep_view()),
        Err(e) => Err(e.deep_view()),
    }
}

/// The whitespace that argument and identifier trimming removes.
pub open spec fn is_space_char(c: char) -> bool {
    c == ' ' || c == '\t' || c == '\n' || c == '\r'
}

pub open spec fn trim_start_spec(s: Seq<char>) -> Seq<char>
    decreases s.len(),
{
    if s.len() > 0 && is_space_char(s[0]) {
        trim_start_spec(s.drop_first())
    } else {
        s
    }
}

pub open spec fn trim_end_spec(s: Seq<char>) -> Seq<char>
    decreases s.len(),
{
    if s.len() > 0 && is_space_char(s[s.len() - 1]) {
        trim_end_spec(s.drop_last())
    } else {
        s
    }
}

/// The text with leading and trailing whitespace removed.
pub open spec fn trim_spec(s: Seq<char>) -> Seq<char> {
    trim_end_spec(trim_start_spec(s))
}

/// The position of the first occurrence of `c`, if any.
pub open spec fn first_index_of(s: Seq<char>, c: char) -> Option<int>
    decreases s.len(),
{
    if s.len() == 0 {
        None
    } else if s[0] == c {
        Some(0)
    } else {
        match first_index_of(s.drop_first(), c) {
            Some(i) => Some(i + 1),
            None => None,
        }
    }
}

pub open spec fn is_exp_char(c: char) -> bool {
    c == 'e' || c == 'E'
}

/// The position of the first exponent marker (`e` or `E`), if any.
pub open spec fn first_exp_index(s: Seq<char>) -> Option<int>
    decreases s.len(),
{
    if s.len() == 0 {
        None
    } else if is_exp_char(s[0]) {
        Some(0)
    } else {
        match first_exp_index(s.drop_first()) {
            Some(i) => Some(i + 1),
            None => None,
        }
    }
}

pub open spec fn is_digit_char(c: char) -> bool {
    '0' <= c && c <= '9'
}

/// One or more decimal digits and nothing else.
pub open spec fn is_digit_seq(s: Seq<char>) -> bool {
    s.len() > 0 && forall|i: int| 0 <= i < s.len() ==> is_digit_char(#[trigger] s[i])
}

/// The text with one leading sign removed, if present.
pub open spec fn strip_sign_spec(s: Seq<char>) -> Seq<char> {
    if s.len() > 0 && (s[0] == '+' || s[0] == '-') {
        s.drop_first()
    } else {
        s
    }
}

pub open spec fn char_ci(c: char, lo: char, up: char) -> bool {
    c == lo || c == up
}

pub open spec fn is_inf_text(s: Seq<char>) -> bool {
    s.len() == 3 && char_ci(s[0], 'i', 'I') && char_ci(s[1], 'n', 'N') && char_ci(s[2], 'f', 'F')
}

pub open spec fn is_infinity_text(s: Seq<char>) -> bool {
    s.len() == 8 && char_ci(s[0], 'i', 'I') && char_ci(s[1], 'n', 'N') && char_ci(s[2], 'f', 'F')
        && char_ci(s[3], 'i', 'I') && char_ci(s[4], 'n', 'N') && char_ci(s[5], 'i', 'I') && char_ci(
        s[6],
        't',
        'T',
    ) && char_ci(s[7], 'y', 'Y')
}

pub open spec fn is_nan_text(s: Seq<char>) -> bool {
    s.len() == 3 && char_ci(s[0], 'n', 'N') && char_ci(s[1], 'a', 'A') && char_ci(s[2], 'n', 'N')
}

pub open spec fn is_true_text(s: Seq<char>) -> bool {
    s.len() == 4 && char_ci(s[0], 't', 'T') && char_ci(s[1], 'r', 'R') && char_ci(s[2], 'u', 'U')
        && char_ci(s[3], 'e', 'E')
}

pub open spec fn is_false_text(s: Seq<char>) -> bool {
    s.len() == 5 && char_ci(s[0], 'f', 'F') && char_ci(s[1], 'a', 'A') && char_ci(s[2], 'l', 'L')
        && char_ci(s[3], 's', 'S') && char_ci(s[4], 'e', 'E')
}

/// Digits with at most one decimal point, and at least one digit in all:
/// the significand part of the float grammar.
pub open spec fn is_mantissa_text(s: Seq<char>) -> bool {
    match first_index_of(s, '.') {
        None => is_digit_seq(s),
        Some(d) => {
            let ip = s.subrange(0, d);
            let fp = s.subrange(d + 1, s.len() as int);
            (ip.len() == 0 || is_digit_seq(ip)) && (fp.len() == 0 || is_digit_seq(fp)) && (ip.len()
                > 0 || fp.len() > 0)
        },
    }
}

/// Whether the text matches the grammar a 64-bit float is read from: an
/// optional sign, then `inf`, `infinity` or `nan` (case-insensitively) or
/// a significand with an optional `e`/`E` exponent.
pub open spec fn is_float_text(s: Seq<char>) -> bool {
    let t = strip_sign_spec(s);
    is_inf_text(t) || is_infinity_text(t) || is_nan_text(t) || (match first_exp_index(t) {
        None => is_mantissa_text(t),
        Some(j) => is_mantissa_text(t.subrange(0, j)) && is_digit_seq(
            strip_sign_spec(t.subrange(j + 1, t.len() as int)),
        ),
    })
}

/// Whether a bare token begins like a number; such a token must then be a
/// well-formed number, or parsing fails with `InvalidNumber`.
pub open spec fn looks_numeric(s: Seq<char>) -> bool {
    s.len() > 0 && (is_digit_char(s[0]) || s[0] == '+' || s[0] == '-' || s[0] == '.')
}

/// The content of a single-quoted span: `s` must begin with a quote; the
/// scan undoes doubled quotes and must end exactly at the closing quote.
pub open spec fn unquote_from(s: Seq<char>, i: nat, acc: Seq<char>) -> Result<
    Seq<char>,
    ParseErrorView,
>
    decreases s.len() - i,
{
    if i >= s.len() {
        Err(ParseErrorView::UnterminatedString)
    } else if s[i as int] == '\'' {
        if i + 1 == s.len() {
            Ok(acc)
        } else if s[i as int + 1] == '\'' {
            unquote_from(s, i + 2, acc.push('\''))
        } else {
            Err(ParseErrorView::UnterminatedString)
        }
    } else {
        unquote_from(s, i + 1, acc.push(s[i as int]))
    }
}

pub open spec fn unquote_spec(s: Seq<char>) -> Result<Seq<char>, ParseErrorView> {
    unquote_from(s, 1, Seq::empty())
}

/// The argument splitter's scan, one character at a time.  `depth` counts
/// open parentheses, `inq` says whether the scan stands inside a quoted
/// span; only a comma seen at depth zero outside quotes ends an argument.
pub open spec fn split_args_from(
    s: Seq<char>,
    i: nat,
    depth: nat,
    inq: bool,
    cur: Seq<char>,
    acc: Seq<Seq<char>>,
) -> Result<Seq<Seq<char>>, ParseErrorView>
    decreases s.len() - i,
{
    if i >= s.len() {
        if inq {
            Err(ParseErrorView::UnterminatedString)
        } else if depth != 0 {
            Err(ParseErrorView::UnbalancedParenthesis)
        } else {
            Ok(acc.push(cur))
        }
    } else {
        let c = s[i as int];
        if inq {
            if c == '\'' {
                if i + 1 < s.len() && s[i as int + 1] == '\'' {
                    split_args_from(s, i + 2, depth, true, cur.push('\'').push('\''), acc)
                } else {
                    split_args_from(s, i + 1, depth, false, cur.push('\''), acc)
                }
            } else {
                split_args_from(s, i + 1, depth, true, cur.push(c), acc)
            }
        } else if c == '\'' {
            split_args_from(s, i + 1, depth, true, cur.push(c), acc)
        } else if c == '(' {
            split_args_from(s, i + 1, depth + 1, false, cur.push(c), acc)
        } else if c == ')' {
            if depth == 0 {
                Err(ParseErrorView::UnbalancedParenthesis)
            } else {
                split_args_from(s, i + 1, (depth - 1) as nat, false, cur.push(c), acc)
            }
        } else if c == ',' && depth == 0 {
            split_args_from(s, i + 1, 0, false, Seq::empty(), acc.push(cur))
        } else {
            split_args_from(s, i + 1, depth, false, cur.push(c), acc)
        }
    }
}

/// The argument texts of a call, split at top-level commas only.
pub open spec fn split_args_spec(s: Seq<char>) -> Result<Seq<Seq<char>>, ParseErrorView> {
    split_args_from(s, 0, 0, false, Seq::empty(), Seq::empty())
}

/// The function, if any, that an identifier names.
pub open spec fn fn_name_of(name: Seq<char>) -> Option<FunctionName> {
    if name == "concat"@ {
        Some(FunctionName::Concat)
    } else if name == "resourceId"@ {
        Some(FunctionName::ResourceId)
    } else if name == "copyIndex"@ {
        Some(FunctionName::CopyIndex)
    } else if name == "format"@ {
        Some(FunctionName::Format)
    } else if name == "if"@ {
        Some(FunctionName::If)
    } else if name == "resourceGroup"@ {
        Some(FunctionName::ResourceGroup)
    } else {
        None
    }
}

/// The referenced name inside `parameters(...)` or `variables(...)`: the
/// whole argument text, trimmed, and unquoted when it stands in quotes.
pub open spec fn ref_name_of(inner: Seq<char>) -> Result<Seq<char>, ParseErrorView> {
    let t = trim_spec(inner);
    if t.len() > 0 && t[0] == '\'' {
        unquote_spec(t)
    } else {
        Ok(t)
    }
}

pub open spec fn starts_with_spec(s: Seq<char>, p: Seq<char>) -> bool {
    s.len() >= p.len() && s.subrange(0, p.len() as int) == p
}

/// Whether an argument text has the shape of a call: an opening
/// parenthesis somewhere and a closing one at its very end.
pub open spec fn looks_like_call(s: Seq<char>) -> bool {
    s.len() > 0 && s[s.len() - 1] == ')' && first_index_of(s, '(') is Some
}

/// One atom: the empty text, a quoted string, a number, a boolean, or a
/// bare token falling back to a verbatim string literal.
pub open spec fn parse_atom_spec(s: Seq<char>) -> Result<ExprView, ParseErrorView> {
    if s.len() == 0 {
        Ok(ExprView::Literal(LiteralView::String(Seq::empty())))
    } else if s[0] == '\'' {
        match unquote_spec(s) {
            Ok(t) => Ok(ExprView::Literal(LiteralView::String(t))),
            Err(e) => Err(e),
        }
    } else if is_float_text(s) {
        Ok(ExprView::Literal(LiteralView::Number(s)))
    } else if is_true_text(s) {
        Ok(ExprView::Literal(LiteralView::Boolean(true)))
    } else if is_false_text(s) {
        Ok(ExprView::Literal(LiteralView::Boolean(false)))
    } else if looks_numeric(s) {
        Err(ParseErrorView::InvalidNumber)
    } else {
        Ok(ExprView::Literal(LiteralView::String(s)))
    }
}

/// One expression at argument level: a quoted atom, a nested call, or a
/// plain atom.  `d` is the remaining nesting budget.
pub open spec fn parse_expr_spec(s: Seq<char>, d: nat) -> Result<ExprView, ParseErrorView>
    decreases d, 1nat, 0nat,
{
    if s.len() > 0 && s[0] == '\'' {
        parse_atom_spec(s)
    } else if looks_like_call(s) {
        parse_call_spec(s, d)
    } else {
        parse_atom_spec(s)
    }
}

/// One call `identifier '(' arglist? ')'`.  The identifier runs to the
/// first opening parenthesis, the argument text to the closing one at the
/// end; `parameters` and `variables` become reference nodes, every other
/// identifier must be in the closed set.
pub open spec fn parse_call_spec(t: Seq<char>, d: nat) -> Result<ExprView, ParseErrorView>
    decreases d, 0nat, 1nat,
{
    if d == 0 {
        Err(ParseErrorView::RecursionLimit)
    } else {
        match first_index_of(t, '(') {
            None => Err(ParseErrorView::UnbalancedParenthesis),
            Some(p) => {
                if t[t.len() - 1] != ')' {
                    Err(ParseErrorView::UnbalancedParenthesis)
                } else {
                    let name = trim_spec(t.subrange(0, p));
                    let inner = t.subrange(p + 1, t.len() - 1);
                    if name == "parameters"@ {
                        match ref_name_of(inner) {
                            Ok(n) => Ok(ExprView::Parameter(n)),
                            Err(e) => Err(e),
                        }
                    } else if name == "variables"@ {
                        match ref_name_of(inner) {
                            Ok(n) => Ok(ExprView::Variable(n)),
                            Err(e) => Err(e),
                        }
                    } else if name.len() == 0 {
                        Err(ParseErrorView::EmptyFunctionName)
                    } else {
                        match fn_name_of(name) {
                            None => Err(ParseErrorView::UnknownFunction(name)),
                            Some(f) => {
                                if trim_spec(inner).len() == 0 {
                                    Ok(ExprView::Function(f, Seq::empty()))
                                } else {
                                    match split_args_spec(inner) {
                                        Err(e) => Err(e),
                                        Ok(args) => match parse_args_spec(args, (d - 1) as nat) {
                                            Ok(vs) => Ok(ExprView::Function(f, vs)),
                                            Err(e) => Err(e),
                                        },
                                    }
                                }
                            },
                        }
                    }
                }
            },
        }
    }
}

/// Every argument of a call in declaration order, each trimmed and parsed
/// as an expression.
pub open spec fn parse_args_spec(args: Seq<Seq<char>>, d: nat) -> Result<
    Seq<ExprView>,
    ParseErrorView,
>
    decreases d, args.len(), 2nat,
{
    if args.len() == 0 {
        Ok(Seq::empty())
    } else {
        match parse_expr_spec(trim_spec(args[0]), d) {
            Err(e) => Err(e),
            Ok(v) => match parse_args_spec(args.drop_first(), d) {
                Err(e) => Err(e),
                Ok(vs) => Ok(Seq::empty().push(v) + vs),
            },
        }
    }
}

/// The whole grammar.  The empty string is the absent expression; a
/// matching `[`...`]` wraps a call; unwrapped `parameters(...)` and
/// `variables(...)` parse exactly as their wrapped forms; everything else
/// is literal text, read as one atom.
pub open spec fn parse_spec(s: Seq<char>) -> Result<ExprView, ParseErrorView> {
    if s.len() == 0 {
        Ok(ExprView::Empty)
    } else if s.len() >= 2 && s[0] == '[' && s[s.len() - 1] == ']' {
        parse_call_spec(trim_spec(s.subrange(1, s.len() - 1)), MAX_DEPTH as nat)
    } else if (starts_with_spec(s, "parameters("@) || starts_with_spec(s, "variables("@)) && s[s.len()
        - 1] == ')' {
        parse_call_spec(s, MAX_DEPTH as nat)
    } else {
        parse_atom_spec(s)
    }
}

} // verus!

use vstd::string::StrSliceExecFns;

verus! {

/// Characterizes [`first_index_of`]: the index it returns is the first
/// position holding `c`, and `None` means `c` does not occur.
pub proof fn lemma_first_index_char(s: Seq<char>, c: char)
    ensures
        match first_index_of(s, c) {
            Some(i) => 0 <= i < s.len() && s[i] == c && forall|j: int| 0 <= j < i ==> s[j] != c,
            None => forall|j: int| 0 <= j < s.len() ==> s[j] != c,
        },
    decreases s.len(),
{
    if s.len() > 0 && s[0] != c {
        lemma_first_index_char(s.drop_first(), c);
        assert forall|j: int| 1 <= j < s.len() implies s[j] == s.drop_first()[j - 1] by {}
    }
}

/// Characterizes [`first_exp_index`] the same way.
pub proof fn lemma_first_exp_index(s: Seq<char>)
    ensures
        match first_exp_index(s) {
            Some(i) => 0 <= i < s.len() && is_exp_char(s[i]) && forall|j: int|
                0 <= j < i ==> !is_exp_char(s[j]),
            None => forall|j: int| 0 <= j < s.len() ==> !is_exp_char(s[j]),
        },
    decreases s.len(),
{
    if s.len() > 0 && !is_exp_char(s[0]) {
        lemma_first_exp_index(s.drop_first());
        assert forall|j: int| 1 <= j < s.len() implies s[j] == s.drop_first()[j - 1] by {}
    }
}

/// The characters of a string, in order.
fn str_chars(s: &str) -> (v: Vec<char>)
    ensures
        v@ == s@,
{
    let n = s.unicode_len();
    let mut v: Vec<char> = Vec::new();
    let mut i: usize = 0;
    while i < n
        invariant
            i <= n,
            n == s@.len(),
            v@ == s@.subrange(0, i as int),
        decreases n - i,
    {
        let c = s.get_char(i);
        v.push(c);
        i = i + 1;
        proof {
            assert(v@ =~= s@.subrange(0, i as int));
        }
    }
    proof {
        assert(v@ =~= s@);
    }
    v
}

/// Relies on `String: FromIterator<char>`: collecting an iterator of
/// characters builds the string of exactly those characters in order.
#[verifier::external_body]
fn chars_to_string(v: &Vec<char>) -> (s: String)
    ensures
        s@ == v@,
{
    v.iter().collect()
}

/// The characters of `v` from `lo` (inclusive) to `hi` (exclusive).
fn subvec(v: &Vec<char>, lo: usize, hi: usize) -> (r: Vec<char>)
    requires
        lo <= hi <= v@.len(),
    ensures
        r@ == v@.subrange(lo as int, hi as int),
{
    let mut r: Vec<char> = Vec::new();
    let mut i: usize = lo;
    while i < hi
        invariant
            lo <= i <= hi <= v@.len(),
            r@ == v@.subrange(lo as int, i as int),
        decreases hi - i,
    {
        r.push(v[i]);
        i = i + 1;
        proof {
            assert(r@ =~= v@.subrange(lo as int, i as int));
        }
    }
    r
}

fn is_space(c: char) -> (r: bool)
    ensures
        r == is_space_char(c),
{
    c == ' ' || c == '\t' || c == '\n' || c == '\r'
}

/// A copy of `v` with leading and trailing whitespace removed.
fn trim_vec(v: &Vec<char>) -> (r: Vec<char>)
    ensures
        r@ == trim_spec(v@),
{
    let n = v.len();
    proof {
        assert(v@ =~= v@.subrange(0, n as int));
    }
    let mut lo: usize = 0;
    while lo < n && is_space(v[lo])
        invariant
            lo <= n,
            n == v@.len(),
            trim_start_spec(v@) == trim_start_spec(v@.subrange(lo as int, n as int)),
        decreases n - lo,
    {
        proof {
            let s = v@.subrange(lo as int, n as int);
            assert(s.drop_first() =~= v@.subrange(lo as int + 1, n as int));
        }
        lo = lo + 1;
    }
    proof {
        let s = v@.subrange(lo as int, n as int);
        if s.len() > 0 {
            assert(s[0] == v@[lo as int]);
        }
        assert(trim_start_spec(s) == s);
        assert(trim_spec(v@) == trim_end_spec(s));
    }
    let mut hi: usize = n;
    while hi > lo && is_space(v[hi - 1])
        invariant
            lo <= hi <= n,
            n == v@.len(),
            trim_end_spec(v@.subrange(lo as int, n as int)) == trim_end_spec(
                v@.subrange(lo as int, hi as int),
            ),
        decreases hi,
    {
        proof {
            let s = v@.subrange(lo as int, hi as int);
            assert(s[s.len() - 1] == v@[hi - 1]);
            assert(s.drop_last() =~= v@.subrange(lo as int, hi as int - 1));
        }
        hi = hi - 1;
    }
    proof {
        let s = v@.subrange(lo as int, hi as int);
        if s.len() > 0 {
            assert(s[s.len() - 1] == v@[hi - 1]);
        }
        assert(trim_end_spec(s) == s);
    }
    subvec(v, lo, hi)
}

/// The first position of `c` in `v`, if any.
fn find_first(v: &Vec<char>, c: char) -> (r: Option<usize>)
    ensures
        match r {
            Some(i) => first_index_of(v@, c) == Some(i as int),
            None => first_index_of(v@, c) is None,
        },
{
    proof {
        lemma_first_index_char(v@, c);
    }
    let n = v.len();
    let mut i: usize = 0;
    while i < n
        invariant
            i <= n,
            n == v@.len(),
            forall|j: int| 0 <= j < i ==> v@[j] != c,
        decreases n - i,
    {
        if v[i] == c {
            proof {
                lemma_first_index_char(v@, c);
            }
            return Some(i);
        }
        i = i + 1;
    }
    None
}

/// The first position of an exponent marker in `v`, if any.
fn find_exp(v: &Vec<char>) -> (r: Option<usize>)
    ensures
        match r {
            Some(i) => first_exp_index(v@) == Some(i as int),
            None => first_exp_index(v@) is None,
        },
{
    proof {
        lemma_first_exp_index(v@);
    }
    let n = v.len();
    let mut i: usize = 0;
    while i < n
        invariant
            i <= n,
            n == v@.len(),
            forall|j: int| 0 <= j < i ==> !is_exp_char(v@[j]),
        decreases n - i,
    {
        let c = v[i];
        if c == 'e' || c == 'E' {
            proof {
                lemma_first_exp_index(v@);
            }
            return Some(i);
        }
        i = i + 1;
    }
    None
}

/// Whether `v` and `s` hold the same characters.
fn vec_eq_str(v: &Vec<char>, s: &str) -> (r: bool)
    ensures
        r == (v@ == s@),
{
    let n = s.unicode_len();
    if v.len() != n {
        return false;
    }
    let mut i: usize = 0;
    while i < n
        invariant
            i <= n,
            n == s@.len(),
            n == v@.len(),
            forall|j: int| 0 <= j < i ==> v@[j] == s@[j],
        decreases n - i,
    {
        if v[i] != s.get_char(i) {
            return false;
        }
        i = i + 1;
    }
    proof {
        assert(v@ =~= s@);
    }
    true
}

/// Whether `v` begins with the characters of `p`.
fn starts_with_str(v: &Vec<char>, p: &str) -> (r: bool)
    ensures
        r == starts_with_spec(v@, p@),
{
    let m = p.unicode_len();
    if v.len() < m {
        return false;
    }
    let mut i: usize = 0;
    while i < m
        invariant
            i <= m,
            m == p@.len(),
            m <= v@.len(),
            forall|j: int| 0 <= j < i ==> v@[j] == p@[j],
        decreases m - i,
    {
        if v[i] != p.get_char(i) {
            proof {
                assert(v@.subrange(0, m as int)[i as int] != p@[i as int]);
            }
            return false;
        }
        i = i + 1;
    }
    proof {
        assert(v@.subrange(0, m as int) =~= p@);
    }
    true
}

} // verus!

verus! {

fn all_digits(v: &Vec<char>) -> (r: bool)
    ensures
        r == is_digit_seq(v@),
{
    let n = v.len();
    if n == 0 {
        return false;
    }
    let mut i: usize = 0;
    while i < n
        invariant
            i <= n,
            n == v@.len(),
            forall|j: int| 0 <= j < i ==> is_digit_char(#[trigger] v@[j]),
        decreases n - i,
    {
        let c = v[i];
        if !('0' <= c && c <= '9') {
            return false;
        }
        i = i + 1;
    }
    true
}

fn strip_sign_vec(v: &Vec<char>) -> (r: Vec<char>)
    ensures
        r@ == strip_sign_spec(v@),
{
    if v.len() > 0 && (v[0] == '+' || v[0] == '-') {
        let r = subvec(v, 1, v.len());
        proof {
            assert(r@ =~= v@.drop_first());
        }
        r
    } else {
        let r = subvec(v, 0, v.len());
        proof {
            assert(r@ =~= v@);
        }
        r
    }
}

fn is_inf_vec(v: &Vec<char>) -> (r: bool)
    ensures
        r == is_inf_text(v@),
{
    v.len() == 3 && (v[0] == 'i' || v[0] == 'I') && (v[1] == 'n' || v[1] == 'N') && (v[2] == 'f'
        || v[2] == 'F')
}

fn is_infinity_vec(v: &Vec<char>) -> (r: bool)
    ensures
        r == is_infinity_text(v@),
{
    v.len() == 8 && (v[0] == 'i' || v[0] == 'I') && (v[1] == 'n' || v[1] == 'N') && (v[2] == 'f'
        || v[2] == 'F') && (v[3] == 'i' || v[3] == 'I') && (v[4] == 'n' || v[4] == 'N') && (v[5]
        == 'i' || v[5] == 'I') && (v[6] == 't' || v[6] == 'T') && (v[7] == 'y' || v[7] == 'Y')
}

fn is_nan_vec(v: &Vec<char>) -> (r: bool)
    ensures
        r == is_nan_text(v@),
{
    v.len() == 3 && (v[0] == 'n' || v[0] == 'N') && (v[1] == 'a' || v[1] == 'A') && (v[2] == 'n'
        || v[2] == 'N')
}

fn is_true_vec(v: &Vec<char>) -> (r: bool)
    ensures
        r == is_true_text(v@),
{
    v.len() == 4 && (v[0] == 't' || v[0] == 'T') && (v[1] == 'r' || v[1] == 'R') && (v[2] == 'u'
        || v[2] == 'U') && (v[3] == 'e' || v[3] == 'E')
}

fn is_false_vec(v: &Vec<char>) -> (r: bool)
    ensures
        r == is_false_text(v@),
{
    v.len() == 5 && (v[0] == 'f' || v[0] == 'F') && (v[1] == 'a' || v[1] == 'A') && (v[2] == 'l'
        || v[2] == 'L') && (v[3] == 's' || v[3] == 'S') && (v[4] == 'e' || v[4] == 'E')
}

fn is_mantissa_vec(v: &Vec<char>) -> (r: bool)
    ensures
        r == is_mantissa_text(v@),
{
    let n = v.len();
    match find_first(v, '.') {
        None => all_digits(v),
        Some(d) => {
            proof {
                lemma_first_index_char(v@, '.');
            }
            let ip = subvec(v, 0, d);
            let fp = subvec(v, d + 1, n);
            let ip_ok = ip.len() == 0 || all_digits(&ip);
            let fp_ok = fp.len() == 0 || all_digits(&fp);
            ip_ok && fp_ok && (ip.len() > 0 || fp.len() > 0)
        },
    }
}

fn is_float_vec(v: &Vec<char>) -> (r: bool)
    ensures
        r == is_float_text(v@),
{
    let t = strip_sign_vec(v);
    if is_inf_vec(&t) || is_infinity_vec(&t) || is_nan_vec(&t) {
        return true;
    }
    match find_exp(&t) {
        None => is_mantissa_vec(&t),
        Some(j) => {
            proof {
                lemma_first_exp_index(t@);
            }
            let tn = t.len();
            let m = subvec(&t, 0, j);
            let e = strip_sign_vec(&subvec(&t, j + 1, tn));
            is_mantissa_vec(&m) && all_digits(&e)
        },
    }
}

fn looks_numeric_vec(v: &Vec<char>) -> (r: bool)
    ensures
        r == looks_numeric(v@),
{
    if v.len() == 0 {
        return false;
    }
    let c = v[0];
    ('0' <= c && c <= '9') || c == '+' || c == '-' || c == '.'
}

/// The content of a quoted span, escapes undone.
fn unquote_chars(v: &Vec<char>) -> (r: Result<Vec<char>, ParseError>)
    requires
        v@.len() >= 1,
    ensures
        match r {
            Ok(t) => unquote_spec(v@) == Ok::<Seq<char>, ParseErrorView>(t@),
            Err(e) => unquote_spec(v@) == Err::<Seq<char>, ParseErrorView>(e.deep_view()),
        },
{
    let n = v.len();
    let mut acc: Vec<char> = Vec::new();
    let mut i: usize = 1;
    loop
        invariant
            1 <= i <= n,
            n == v@.len(),
            unquote_spec(v@) == unquote_from(v@, i as nat, acc@),
        decreases n - i,
    {
        if i >= n {
            return Err(ParseError::UnterminatedString);
        }
        let c = v[i];
        if c == '\'' {
            if i + 1 == n {
                return Ok(acc);
            }
            if v[i + 1] == '\'' {
                acc.push('\'');
                i = i + 2;
            } else {
                return Err(ParseError::UnterminatedString);
            }
        } else {
            acc.push(c);
            i = i + 1;
        }
    }
}

/// The argument texts of a call, split at top-level commas only, with
/// parenthesis depth and quoted spans tracked.
fn split_args(v: &Vec<char>) -> (r: Result<Vec<Vec<char>>, ParseError>)
    ensures
        match r {
            Ok(args) => split_args_spec(v@) == Ok::<Seq<Seq<char>>, ParseErrorView>(
                args.deep_view(),
            ),
            Err(e) => split_args_spec(v@) == Err::<Seq<Seq<char>>, ParseErrorView>(e.deep_view()),
        },
{
    let n = v.len();
    let mut acc: Vec<Vec<char>> = Vec::new();
    let mut cur: Vec<char> = Vec::new();
    let mut depth: usize = 0;
    let mut inq: bool = false;
    let mut i: usize = 0;
    proof {
        assert(acc.deep_view() =~= Seq::<Seq<char>>::empty());
    }
    loop
        invariant
            i <= n,
            depth <= i,
            n == v@.len(),
            split_args_spec(v@) == split_args_from(
                v@,
                i as nat,
                depth as nat,
                inq,
                cur@,
                acc.deep_view(),
            ),
        decreases n - i,
    {
        if i >= n {
            if inq {
                return Err(ParseError::UnterminatedString);
            }
            if depth != 0 {
                return Err(ParseError::UnbalancedParenthesis);
            }
            let ghost prev = acc.deep_view();
            let ghost curview = cur@;
            acc.push(cur);
            proof {
                assert(acc.deep_view() =~~= prev.push(curview));
            }
            return Ok(acc);
        }
        let c = v[i];
        if inq {
            if c == '\'' {
                if i + 1 < n && v[i + 1] == '\'' {
                    cur.push('\'');
                    cur.push('\'');
                    i = i + 2;
                } else {
                    cur.push('\'');
                    inq = false;
                    i = i + 1;
                }
            } else {
                cur.push(c);
                i = i + 1;
            }
        } else if c == '\'' {
            cur.push(c);
            inq = true;
            i = i + 1;
        } else if c == '(' {
            cur.push(c);
            depth = depth + 1;
            i = i + 1;
        } else if c == ')' {
            if depth == 0 {
                return Err(ParseError::UnbalancedParenthesis);
            }
            cur.push(c);
            depth = depth - 1;
            i = i + 1;
        } else if c == ',' && depth == 0 {
            let ghost prev = acc.deep_view();
            let ghost curview = cur@;
            acc.push(cur);
            proof {
                assert(acc.deep_view() =~~= prev.push(curview));
            }
            cur = Vec::new();
            i = i + 1;
        } else {
            cur.push(c);
            i = i + 1;
        }
    }
}

} // verus!

verus! {

fn looks_call(v: &Vec<char>) -> (r: bool)
    ensures
        r == looks_like_call(v@),
{
    let n = v.len();
    if n == 0 {
        return false;
    }
    if v[n - 1] != ')' {
        return false;
    }
    match find_first(v, '(') {
        Some(_) => true,
        None => false,
    }
}

fn fn_name_lookup(name: &Vec<char>) -> (r: Option<FunctionName>)
    ensures
        r == fn_name_of(name@),
{
    if vec_eq_str(name, "concat") {
        Some(FunctionName::Concat)
    } else if vec_eq_str(name, "resourceId") {
        Some(FunctionName::ResourceId)
    } else if vec_eq_str(name, "copyIndex") {
        Some(FunctionName::CopyIndex)
    } else if vec_eq_str(name, "format") {
        Some(FunctionName::Format)
    } else if vec_eq_str(name, "if") {
        Some(FunctionName::If)
    } else if vec_eq_str(name, "resourceGroup") {
        Some(FunctionName::ResourceGroup)
    } else {
        None
    }
}

/// The referenced name inside `parameters(...)` or `variables(...)`.
fn ref_name_chars(inner: &Vec<char>) -> (r: Result<Vec<char>, ParseError>)
    ensures
        match r {
            Ok(n) => ref_name_of(inner@) == Ok::<Seq<char>, ParseErrorView>(n@),
            Err(e) => ref_name_of(inner@) == Err::<Seq<char>, ParseErrorView>(e.deep_view()),
        },
{
    let t = trim_vec(inner);
    if t.len() > 0 && t[0] == '\'' {
        unquote_chars(&t)
    } else {
        Ok(t)
    }
}

/// One atom of the grammar.
fn parse_atom_chars(v: &Vec<char>) -> (r: Result<ArmExpression, ParseError>)
    ensures
        expr_result_view(r) == parse_atom_spec(v@),
{
    let n = v.len();
    if n == 0 {
        return Ok(ArmExpression::Literal(LiteralValue::String(String::new())));
    }
    if v[0] == '\'' {
        match unquote_chars(v) {
            Ok(t) => Ok(ArmExpression::Literal(LiteralValue::String(chars_to_string(&t)))),
            Err(e) => Err(e),
        }
    } else if is_float_vec(v) {
        Ok(ArmExpression::Literal(LiteralValue::Number(chars_to_string(v))))
    } else if is_true_vec(v) {
        Ok(ArmExpression::Literal(LiteralValue::Boolean(true)))
    } else if is_false_vec(v) {
        Ok(ArmExpression::Literal(LiteralValue::Boolean(false)))
    } else if looks_numeric_vec(v) {
        Err(ParseError::InvalidNumber)
    } else {
        Ok(ArmExpression::Literal(LiteralValue::String(chars_to_string(v))))
    }
}

/// One expression at argument level.
fn parse_expr_chars(v: &Vec<char>, d: u64) -> (r: Result<ArmExpression, ParseError>)
    ensures
        expr_result_view(r) == parse_expr_spec(v@, d as nat),
    decreases d, 1nat, 0nat,
{
    let n = v.len();
    if n > 0 && v[0] == '\'' {
        parse_atom_chars(v)
    } else if looks_call(v) {
        parse_call_chars(v, d)
    } else {
        parse_atom_chars(v)
    }
}

/// One call of the grammar; `t` is the call text without brackets.
#[verifier::loop_isolation(false)]
#[verifier::rlimit(60)]
fn parse_call_chars(t: &Vec<char>, d: u64) -> (r: Result<ArmExpression, ParseError>)
    ensures
        expr_result_view(r) == parse_call_spec(t@, d as nat),
    decreases d, 0nat, 1nat,
{
    if d == 0 {
        return Err(ParseError::RecursionLimit);
    }
    let n = t.len();
    let p = match find_first(t, '(') {
        None => {
            return Err(ParseError::UnbalancedParenthesis);
        },
        Some(p) => p,
    };
    proof {
        lemma_first_index_char(t@, '(');
    }
    if t[n - 1] != ')' {
        return Err(ParseError::UnbalancedParenthesis);
    }
    let name = trim_vec(&subvec(t, 0, p));
    let inner = subvec(t, p + 1, n - 1);
    if vec_eq_str(&name, "parameters") {
        return match ref_name_chars(&inner) {
            Ok(nm) => Ok(ArmExpression::Parameter(chars_to_string(&nm))),
            Err(e) => Err(e),
        };
    }
    if vec_eq_str(&name, "variables") {
        return match ref_name_chars(&inner) {
            Ok(nm) => Ok(ArmExpression::Variable(chars_to_string(&nm))),
            Err(e) => Err(e),
        };
    }
    if name.len() == 0 {
        return Err(ParseError::EmptyFunctionName);
    }
    let f = match fn_name_lookup(&name) {
        None => {
            return Err(ParseError::UnknownFunction(chars_to_string(&name)));
        },
        Some(f) => f,
    };
    let innert = trim_vec(&inner);
    if innert.len() == 0 {
        let no_args: Vec<ArmExpression> = Vec::new();
        proof {
            assert(crate::ast::exprs_view(no_args@) == Seq::<ExprView>::empty());
        }
        return Ok(ArmExpression::Function(FunctionExpression { name: f, arguments: no_args }));
    }
    let args = match split_args(&inner) {
        Err(e) => {
            return Err(e);
        },
        Ok(args) => args,
    };
    let ghost av = args.deep_view();
    let ghost dm1 = (d - 1) as nat;
    let m = args.len();
    proof {
        assert(av.subrange(0, av.len() as int) =~= av);
        assert(av.len() == args@.len());
    }
    let mut out: Vec<ArmExpression> = Vec::new();
    let mut i: usize = 0;
    proof {
        assert(crate::ast::exprs_view(out@) == Seq::<ExprView>::empty());
        if parse_args_spec(av, dm1) is Ok {
            let rest = parse_args_spec(av, dm1)->Ok_0;
            assert(crate::ast::exprs_view(out@) + rest =~= rest);
        }
    }
    while i < m
        invariant
            i <= m,
            m == av.len(),
            parse_args_spec(av, dm1) == (match parse_args_spec(
                av.subrange(i as int, av.len() as int),
                dm1,
            ) {
                Ok(rest) => Ok::<Seq<ExprView>, ParseErrorView>(
                    crate::ast::exprs_view(out@) + rest,
                ),
                Err(e) => Err::<Seq<ExprView>, ParseErrorView>(e),
            }),
        decreases m - i,
    {
        proof {
            assert(args@[i as int].deep_view() =~= args@[i as int]@);
        }
        let a = trim_vec(&args[i]);
        let ghost rem = av.subrange(i as int, av.len() as int);
        proof {
            assert(rem[0] == av[i as int]);
            assert(a@ == trim_spec(rem[0]));
            assert(rem.drop_first() =~= av.subrange(i as int + 1, av.len() as int));
        }
        match parse_expr_chars(&a, d - 1) {
            Err(e) => {
                return Err(e);
            },
            Ok(node) => {
                let ghost prev = out@;
                let ghost nodeview = node.deep_view();
                out.push(node);
                proof {
                    crate::ast::lemma_exprs_view_push(prev, node);
                    assert(crate::ast::exprs_view(out@) == crate::ast::exprs_view(prev).push(
                        nodeview,
                    ));
                    if parse_args_spec(rem.drop_first(), dm1) is Ok {
                        let rest2 = parse_args_spec(rem.drop_first(), dm1)->Ok_0;
                        assert(crate::ast::exprs_view(prev) + (Seq::empty().push(nodeview) + rest2)
                            =~= crate::ast::exprs_view(prev).push(nodeview) + rest2);
                    }
                }
            },
        }
        i = i + 1;
    }
    proof {
        assert(av.subrange(m as int, av.len() as int) =~= Seq::<Seq<char>>::empty());
        assert(crate::ast::exprs_view(out@) + Seq::<ExprView>::empty() =~= crate::ast::exprs_view(
            out@,
        ));
    }
    Ok(ArmExpression::Function(FunctionExpression { name: f, arguments: out }))
}

/// Parses a raw string into an expression or a typed error.
///
/// The contract pins the outcome, through its deep view, to the grammar
/// stated by [`parse_spec`]; parsing is a pure, total function of the
/// input and never panics.
pub fn parse(raw: &str) -> (r: Result<ArmExpression, ParseError>)
    ensures
        expr_result_view(r) == parse_spec(raw@),
{
    let v = str_chars(raw);
    let n = v.len();
    if n == 0 {
        return Ok(ArmExpression::Empty);
    }
    if n >= 2 && v[0] == '[' && v[n - 1] == ']' {
        let inner = trim_vec(&subvec(&v, 1, n - 1));
        return parse_call_chars(&inner, MAX_DEPTH);
    }
    if starts_with_str(&v, "parameters(") || starts_with_str(&v, "variables(") {
        if v[n - 1] == ')' {
            return parse_call_chars(&v, MAX_DEPTH);
        }
    }
    parse_atom_chars(&v)
}

} // verus!

verus! {

/// The escaping that renders a string literal: every quote in the text is
/// doubled.
pub open spec fn escape_spec(s: Seq<char>) -> Seq<char>
    decreases s.len(),
{
    if s.len() == 0 {
        Seq::empty()
    } else if s[0] == '\'' {
        seq!['\'', '\''] + escape_spec(s.drop_first())
    } else {
        seq![s[0]] + escape_spec(s.drop_first())
    }
}

/// The rendering of a string literal: the escaped text between quotes.
pub open spec fn quote_spec(s: Seq<char>) -> Seq<char> {
    seq!['\''] + escape_spec(s) + seq!['\'']
}

/// Appending one character to the text appends its escape.
proof fn lemma_escape_push(s: Seq<char>, c: char)
    ensures
        escape_spec(s.push(c)) == escape_spec(s) + (if c == '\'' {
            seq!['\'', '\'']
        } else {
            seq![c]
        }),
    decreases s.len(),
{
    let tail = (if c == '\'' {
        seq!['\'', '\'']
    } else {
        seq![c]
    });
    let sp = s.push(c);
    if s.len() == 0 {
        assert(sp[0] == c);
        assert(sp.drop_first() =~= Seq::<char>::empty());
        assert(escape_spec(sp.drop_first()) == Seq::<char>::empty());
        if c == '\'' {
            assert(escape_spec(sp) == seq!['\'', '\''] + escape_spec(sp.drop_first()));
            assert(seq!['\'', '\''] + Seq::<char>::empty() =~= seq!['\'', '\'']);
        } else {
            assert(escape_spec(sp) == seq![c] + escape_spec(sp.drop_first()));
            assert(seq![c] + Seq::<char>::empty() =~= seq![c]);
        }
        assert(escape_spec(s) == Seq::<char>::empty());
        assert(Seq::<char>::empty() + tail =~= tail);
    } else {
        lemma_escape_push(s.drop_first(), c);
        assert(sp[0] == s[0]);
        assert(sp.drop_first() =~= s.drop_first().push(c));
        let head = (if s[0] == '\'' {
            seq!['\'', '\'']
        } else {
            seq![s[0]]
        });
        assert(escape_spec(sp) == head + escape_spec(s.drop_first().push(c)));
        assert(escape_spec(s) == head + escape_spec(s.drop_first()));
        assert(head + (escape_spec(s.drop_first()) + tail) =~= (head + escape_spec(s.drop_first()))
            + tail);
    }
}

/// Renders a text as a single-quoted string literal, doubling every quote
/// it holds, so that [`parse`] reads the same text back.
pub fn render_string_literal(s: &str) -> (r: String)
    ensures
        r@ == quote_spec(s@),
{
    let v = str_chars(s);
    let n = v.len();
    let mut out: Vec<char> = Vec::new();
    out.push('\'');
    proof {
        assert(v@.subrange(0, 0) =~= Seq::<char>::empty());
        assert(out@ =~= seq!['\''] + escape_spec(v@.subrange(0, 0)));
    }
    let mut i: usize = 0;
    while i < n
        invariant
            i <= n,
            n == v@.len(),
            out@ == seq!['\''] + escape_spec(v@.subrange(0, i as int)),
        decreases n - i,
    {
        let c = v[i];
        proof {
            lemma_escape_push(v@.subrange(0, i as int), c);
            assert(v@.subrange(0, i as int).push(c) =~= v@.subrange(0, i as int + 1));
        }
        if c == '\'' {
            out.push('\'');
            out.push('\'');
        } else {
            out.push(c);
        }
        i = i + 1;
    }
    out.push('\'');
    proof {
        assert(v@.subrange(0, n as int) =~= v@);
        assert(out@ =~= quote_spec(s@));
    }
    chars_to_string(&out)
}

/// Scanning an escaped text from inside a quoted span gathers exactly the
/// original text and stops at the closing quote.
proof fn lemma_unquote_escape(w: Seq<char>, i: nat, s: Seq<char>, acc: Seq<char>)
    requires
        i + escape_spec(s).len() + 1 == w.len(),
        w.subrange(i as int, w.len() as int) == escape_spec(s) + seq!['\''],
    ensures
        unquote_from(w, i, acc) == Ok::<Seq<char>, ParseErrorView>(acc + s),
    decreases s.len(),
{
    let suffix = w.subrange(i as int, w.len() as int);
    if s.len() == 0 {
        assert(escape_spec(s) == Seq::<char>::empty());
        assert(suffix.len() == 1);
        assert(w[i as int] == suffix[0]);
        assert(suffix[0] == (escape_spec(s) + seq!['\''])[0]);
        assert((escape_spec(s) + seq!['\''])[0] == '\'');
        assert(i + 1 == w.len());
        assert(unquote_from(w, i, acc) == Ok::<Seq<char>, ParseErrorView>(acc));
        assert(acc + s =~= acc);
    } else {
        let t = s.drop_first();
        let target = escape_spec(t) + seq!['\''];
        if s[0] == '\'' {
            assert(escape_spec(s) == seq!['\'', '\''] + escape_spec(t));
            assert(escape_spec(s).len() == 2 + escape_spec(t).len());
            assert(w[i as int] == suffix[0]);
            assert(suffix[0] == (escape_spec(s) + seq!['\''])[0]);
            assert((escape_spec(s) + seq!['\''])[0] == escape_spec(s)[0]);
            assert(escape_spec(s)[0] == '\'');
            assert(w[i as int + 1] == suffix[1]);
            assert(suffix[1] == (escape_spec(s) + seq!['\''])[1]);
            assert((escape_spec(s) + seq!['\''])[1] == escape_spec(s)[1]);
            assert(escape_spec(s)[1] == '\'');
            assert(i + 1 < w.len());
            let sub = w.subrange(i as int + 2, w.len() as int);
            assert(sub.len() == target.len());
            assert forall|k: int| 0 <= k < sub.len() implies sub[k] == target[k] by {
                assert(sub[k] == w[i as int + 2 + k]);
                assert(w[i as int + 2 + k] == suffix[2 + k]);
                assert(suffix[2 + k] == (escape_spec(s) + seq!['\''])[2 + k]);
                if 2 + k < escape_spec(s).len() {
                    assert((escape_spec(s) + seq!['\''])[2 + k] == escape_spec(s)[2 + k]);
                    assert(escape_spec(s)[2 + k] == (seq!['\'', '\''] + escape_spec(t))[2 + k]);
                    assert((seq!['\'', '\''] + escape_spec(t))[2 + k] == escape_spec(t)[k]);
                    assert(target[k] == escape_spec(t)[k]);
                } else {
                    assert((escape_spec(s) + seq!['\''])[2 + k] == '\'');
                    assert(target[k] == '\'');
                }
            }
            assert(sub =~= target);
            lemma_unquote_escape(w, i + 2, t, acc.push('\''));
            assert(acc.push('\'') + t =~= acc + s);
        } else {
            assert(escape_spec(s) == seq![s[0]] + escape_spec(t));
            assert(escape_spec(s).len() == 1 + escape_spec(t).len());
            assert(w[i as int] == suffix[0]);
            assert(suffix[0] == (escape_spec(s) + seq!['\''])[0]);
            assert((escape_spec(s) + seq!['\''])[0] == escape_spec(s)[0]);
            assert(escape_spec(s)[0] == s[0]);
            let sub = w.subrange(i as int + 1, w.len() as int);
            assert(sub.len() == target.len());
            assert forall|k: int| 0 <= k < sub.len() implies sub[k] == target[k] by {
                assert(sub[k] == w[i as int + 1 + k]);
                assert(w[i as int + 1 + k] == suffix[1 + k]);
                assert(suffix[1 + k] == (escape_spec(s) + seq!['\''])[1 + k]);
                if 1 + k < escape_spec(s).len() {
                    assert((escape_spec(s) + seq!['\''])[1 + k] == escape_spec(s)[1 + k]);
                    assert(escape_spec(s)[1 + k] == (seq![s[0]] + escape_spec(t))[1 + k]);
                    assert((seq![s[0]] + escape_spec(t))[1 + k] == escape_spec(t)[k]);
                    assert(target[k] == escape_spec(t)[k]);
                } else {
                    assert((escape_spec(s) + seq!['\''])[1 + k] == '\'');
                    assert(target[k] == '\'');
                }
            }
            assert(sub =~= target);
            lemma_unquote_escape(w, i + 1, t, acc.push(s[0]));
            assert(acc.push(s[0]) + t =~= acc + s);
        }
    }
}

/// Round trip for string literals: any text rendered as a single-quoted
/// literal parses back to exactly that text.
pub proof fn lemma_string_literal_round_trip(s: Seq<char>)
    ensures
        parse_spec(quote_spec(s)) == Ok::<ExprView, ParseErrorView>(
            ExprView::Literal(LiteralView::String(s)),
        ),
{
    let w = quote_spec(s);
    assert(w[0] == '\'');
    assert(w.len() >= 2);
    reveal_strlit("parameters(");
    reveal_strlit("variables(");
    assert(!starts_with_spec(w, "parameters("@)) by {
        if starts_with_spec(w, "parameters("@) {
            assert(w.subrange(0, 11)[0] == w[0]);
        }
    }
    assert(!starts_with_spec(w, "variables("@)) by {
        if starts_with_spec(w, "variables("@) {
            assert(w.subrange(0, 10)[0] == w[0]);
        }
    }
    assert(w.subrange(1, w.len() as int) =~= escape_spec(s) + seq!['\'']);
    lemma_unquote_escape(w, 1, s, Seq::empty());
    assert(Seq::empty() + s =~= s);
}

/// Whitespace trimming does not touch a text whose first and last
/// characters are not whitespace.
proof fn lemma_trim_nonspace(s: Seq<char>)
    requires
        s.len() > 0,
        !is_space_char(s[0]),
        !is_space_char(s[s.len() - 1]),
    ensures
        trim_spec(s) == s,
{
    assert(trim_start_spec(s) == s);
    assert(trim_end_spec(s) == s);
}

/// Bracket wrapping changes nothing for parameter and variable
/// references: `parameters(...)` and `[parameters(...)]` parse alike, and
/// so do `variables(...)` and `[variables(...)]`.
pub proof fn lemma_reference_bracket_wrapping(s: Seq<char>)
    requires
        starts_with_spec(s, "parameters("@) || starts_with_spec(s, "variables("@),
        s[s.len() - 1] == ')',
    ensures
        parse_spec(seq!['['] + s + seq![']']) == parse_spec(s),
{
    reveal_strlit("parameters(");
    reveal_strlit("variables(");
    if starts_with_spec(s, "parameters("@) {
        assert(s[0] == s.subrange(0, 11)[0]);
    } else {
        assert(s[0] == s.subrange(0, 10)[0]);
    }
    let w = seq!['['] + s + seq![']'];
    assert(w[0] == '[');
    assert(w[w.len() - 1] == ']');
    assert(w.subrange(1, w.len() - 1) =~= s);
    lemma_trim_nonspace(s);
    assert(parse_spec(w) == parse_call_spec(s, MAX_DEPTH as nat));
    assert(s[0] != '[');
    assert(parse_spec(s) == parse_call_spec(s, MAX_DEPTH as nat));
}

} // verus!
