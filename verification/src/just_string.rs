use crate::spanned::Spanned;
use crate::value::{res_matches, Error, Request, SpecErr, SpecValue, Value};
use vstd::prelude::*;
use vstd::string::StrSliceExecFns;
use vstd::string::StringSliceAdditionalSpecFns;

verus! {

// ---------------------------------------------------------------------------
// Specification of scalar coercion
// ---------------------------------------------------------------------------
/// ASCII-lowercases one character; every other character is left alone.
pub open spec fn lower_char(c: char) -> char {
    if 'A' <= c && c <= 'Z' {
        ((c as u32) + 32) as char
    } else {
        c
    }
}

/// ASCII-lowercases a character sequence.
pub open spec fn spec_lower(s: Seq<char>) -> Seq<char> {
    s.map_values(|c: char| lower_char(c))
}

/// True when `s` is one of the accepted spellings of `true`, compared
/// case-insensitively.
pub open spec fn spec_is_true_lit(s: Seq<char>) -> bool {
    let l = spec_lower(s);
    l == "true"@ || l == "t"@ || l == "yes"@ || l == "y"@ || l == "1"@
}

/// True when `s` is one of the accepted spellings of `false`, compared
/// case-insensitively.
pub open spec fn spec_is_false_lit(s: Seq<char>) -> bool {
    let l = spec_lower(s);
    l == "false"@ || l == "f"@ || l == "no"@ || l == "n"@ || l == "0"@
}

pub open spec fn is_digit(c: char) -> bool {
    '0' <= c && c <= '9'
}

pub open spec fn digit_val(c: char) -> int {
    c as u32 - '0' as u32
}

/// The number denoted by a sequence of decimal digits, most significant
/// first.
pub open spec fn digits_val(s: Seq<char>) -> int
    decreases s.len(),
{
    if s.len() == 0 {
        0
    } else {
        digits_val(s.drop_last()) * 10 + digit_val(s.last())
    }
}

/// True when `s` is nonempty and all decimal digits.
pub open spec fn spec_is_digits(s: Seq<char>) -> bool {
    s.len() > 0 && forall|i: int| 0 <= i < s.len() ==> is_digit(#[trigger] s[i])
}

/// The digits of an integer literal, with an optional leading sign removed.
pub open spec fn spec_int_body(s: Seq<char>) -> Seq<char> {
    if s.len() > 0 && (s[0] == '+' || s[0] == '-') {
        s.drop_first()
    } else {
        s
    }
}

/// True when the integer literal carries a minus sign.
pub open spec fn spec_int_neg(s: Seq<char>) -> bool {
    s.len() > 0 && s[0] == '-'
}

/// The signed number denoted by an integer literal.
pub open spec fn spec_int_val(s: Seq<char>) -> int {
    if spec_int_neg(s) {
        -digits_val(spec_int_body(s))
    } else {
        digits_val(spec_int_body(s))
    }
}

/// True when `s` is a decimal literal that `i64`'s standard textual parser
/// accepts: an optional sign, then one or more digits, with the value in
/// range.
pub open spec fn spec_is_i64(s: Seq<char>) -> bool {
    spec_is_digits(spec_int_body(s)) && i64::MIN <= spec_int_val(s) <= i64::MAX
}

/// True when `s` is a decimal literal that `u64`'s standard textual parser
/// accepts: an optional plus sign, then one or more digits, with the value
/// in range.
pub open spec fn spec_is_u64(s: Seq<char>) -> bool {
    !spec_int_neg(s) && spec_is_digits(spec_int_body(s)) && spec_int_val(s) <= u64::MAX
}

/// The model of scalar coercion: what the coercion engine returns for one
/// substring `s`, starting at byte offset `start` of the original text,
/// under the request `req`.
///
/// A `List` or `Record` request cannot be satisfied by a bare substring;
/// it marks a broken caller, not bad input data.
pub open spec fn spec_coerce(s: Seq<char>, start: int, req: Request) -> Result<SpecValue, SpecErr>
    decreases req,
{
    match req {
        Request::Bool => if spec_is_true_lit(s) {
            Ok(SpecValue::Bool(true))
        } else if spec_is_false_lit(s) {
            Ok(SpecValue::Bool(false))
        } else {
            Err(SpecErr::Parse(s))
        },
        Request::Char => if s.len() == 1 {
            Ok(SpecValue::Char(s[0]))
        } else {
            Err(SpecErr::Parse(s))
        },
        Request::Int => if spec_is_i64(s) {
            Ok(SpecValue::Int(spec_int_val(s) as i64))
        } else {
            Err(SpecErr::Parse(s))
        },
        Request::UInt => if spec_is_u64(s) {
            Ok(SpecValue::UInt(spec_int_val(s) as u64))
        } else {
            Err(SpecErr::Parse(s))
        },
        Request::Text => Ok(SpecValue::Text(s)),
        Request::Bytes => Ok(SpecValue::Bytes(vstd::utf8::encode_utf8(s))),
        Request::Unit => Ok(SpecValue::Unit),
        Request::Optional(inner) => match spec_coerce(s, start, *inner) {
            Ok(v) => Ok(SpecValue::Present(Box::new(v))),
            Err(e) => Err(e),
        },
        Request::Span(inner) => match spec_coerce(s, start, *inner) {
            Ok(v) => Ok(
                SpecValue::Span(start, start + vstd::utf8::encode_utf8(s).len(), Box::new(v)),
            ),
            Err(e) => Err(e),
        },
        Request::List(_) => Err(SpecErr::Protocol),
        Request::Record(_) => Err(SpecErr::Protocol),
    }
}

// ---------------------------------------------------------------------------
// Arithmetic lemmas about digit strings
// ---------------------------------------------------------------------------
pub proof fn lemma_digits_val_nonneg(s: Seq<char>)
    requires
        forall|i: int| 0 <= i < s.len() ==> is_digit(#[trigger] s[i]),
    ensures
        digits_val(s) >= 0,
    decreases s.len(),
{
    if s.len() > 0 {
        lemma_digits_val_nonneg(s.drop_last());
    }
}

/// Extending a digit string on the right can only increase its value.
pub proof fn lemma_digits_val_prefix_le(s: Seq<char>, i: int)
    requires
        forall|j: int| 0 <= j < s.len() ==> is_digit(#[trigger] s[j]),
        0 <= i <= s.len(),
    ensures
        digits_val(s.subrange(0, i)) <= digits_val(s),
    decreases s.len() - i,
{
    if i == s.len() {
        assert(s.subrange(0, i) =~= s);
    } else {
        lemma_digits_val_prefix_le(s, i + 1);
        let p = s.subrange(0, i);
        let q = s.subrange(0, i + 1);
        assert(q.drop_last() =~= p);
        lemma_digits_val_nonneg(p);
        assert(digits_val(q) == digits_val(p) * 10 + digit_val(s[i]));
        assert(digits_val(p) * 10 >= digits_val(p)) by (nonlinear_arith)
            requires
                digits_val(p) >= 0,
        ;
    }
}

// ---------------------------------------------------------------------------
// Executable helpers
// ---------------------------------------------------------------------------
/// True when `c` equals `l` up to ASCII case, for a lowercase reference
/// character `l`.
fn char_ieq(c: char, l: char) -> (r: bool)
    requires
        lower_char(l) == l,
    ensures
        r <==> lower_char(c) == l,
{
    proof {
        broadcast use vstd::utf8::char_u32_cast;

    }
    let cu = c as u32;
    let lu = l as u32;
    cu == lu || ('A' as u32) <= cu && cu <= ('Z' as u32) && cu + 32 == lu
}

/// True when `s` equals the lowercase reference string `lit` up to ASCII
/// case.
fn str_ieq(s: &str, lit: &str) -> (r: bool)
    requires
        spec_lower(lit@) == lit@,
    ensures
        r <==> spec_lower(s@) == lit@,
{
    let n = s.unicode_len();
    if n != lit.unicode_len() {
        assert(spec_lower(s@).len() == s@.len());
        return false;
    }
    let mut i: usize = 0;
    while i < n
        invariant
            0 <= i <= n,
            n == s@.len() == lit@.len(),
            spec_lower(lit@) == lit@,
            forall|j: int| 0 <= j < i ==> lower_char(s@[j]) == lit@[j],
        decreases n - i,
    {
        let c = s.get_char(i);
        let l = lit.get_char(i);
        assert(lower_char(lit@[i as int]) == lit@[i as int]) by {
            assert(spec_lower(lit@)[i as int] == lower_char(lit@[i as int]));
        }
        if !char_ieq(c, l) {
            assert(spec_lower(s@)[i as int] == lower_char(s@[i as int]));
            return false;
        }
        i += 1;
    }
    assert(spec_lower(s@) =~= lit@);
    true
}

/// Builds the error for a substring that does not coerce to the requested
/// scalar type.
fn parse_error(text: &str, expected: &str) -> (r: Error)
    ensures
        r@ == SpecErr::Parse(text@),
{
    Error::Parse { text: text.to_owned(), expected: expected.to_owned() }
}

// ---------------------------------------------------------------------------
// The deserializer
// ---------------------------------------------------------------------------
/// The scalar coercion engine: turns one matched substring into the
/// requested primitive value.  Regular expressions play no further part
/// once extraction reaches this layer; it is the terminus of (nearly)
/// every recursive extraction path.
#[derive(Clone, Copy)]
pub struct JustStrDeserializer<'t> {
    text: &'t str,
    /// Byte offset of the start of `text` within the original outermost
    /// text.
    start: usize,
}

impl<'t> JustStrDeserializer<'t> {
    pub closed spec fn spec_text(&self) -> Seq<char> {
        self.text@
    }

    pub closed spec fn spec_start(&self) -> usize {
        self.start
    }

    /// True when the span this deserializer covers stays within the range
    /// of byte offsets a text held in memory can have.
    pub open spec fn in_bounds(&self) -> bool {
        self.spec_start() + vstd::utf8::encode_utf8(self.spec_text()).len() <= usize::MAX
    }

    pub fn new(text: &'t str, start: usize) -> (r: Self)
        ensures
            r.spec_text() == text@,
            r.spec_start() == start,
    {
        Self { text, start }
    }

    /// Case-insensitive boolean coercion: the spellings of `true` are
    /// `true`, `t`, `yes`, `y` and `1`; those of `false` are `false`, `f`,
    /// `no`, `n` and `0`; anything else is a parse error.
    pub fn parse_bool(self) -> (r: Result<bool, Error>)
        ensures
            spec_is_true_lit(self.spec_text()) ==> r == Ok::<bool, Error>(true),
            spec_is_false_lit(self.spec_text()) ==> r == Ok::<bool, Error>(false),
            !spec_is_true_lit(self.spec_text()) && !spec_is_false_lit(self.spec_text()) ==> (
            r matches Err(e) && e@ == SpecErr::Parse(self.spec_text())),
    {
        proof {
            reveal_strlit("true");
            reveal_strlit("t");
            reveal_strlit("yes");
            reveal_strlit("y");
            reveal_strlit("1");
            reveal_strlit("false");
            reveal_strlit("f");
            reveal_strlit("no");
            reveal_strlit("n");
            reveal_strlit("0");
            assert(spec_lower("true"@) =~= "true"@);
            assert(spec_lower("t"@) =~= "t"@);
            assert(spec_lower("yes"@) =~= "yes"@);
            assert(spec_lower("y"@) =~= "y"@);
            assert(spec_lower("1"@) =~= "1"@);
            assert(spec_lower("false"@) =~= "false"@);
            assert(spec_lower("f"@) =~= "f"@);
            assert(spec_lower("no"@) =~= "no"@);
            assert(spec_lower("n"@) =~= "n"@);
            assert(spec_lower("0"@) =~= "0"@);
            assert("t"@ != "f"@ && "t"@ != "n"@ && "t"@ != "0"@) by {
                assert("t"@[0] == 't' && "f"@[0] == 'f' && "n"@[0] == 'n' && "0"@[0] == '0');
            }
            assert("y"@ != "f"@ && "y"@ != "n"@ && "y"@ != "0"@) by {
                assert("y"@[0] == 'y' && "f"@[0] == 'f' && "n"@[0] == 'n' && "0"@[0] == '0');
            }
            assert("1"@ != "f"@ && "1"@ != "n"@ && "1"@ != "0"@) by {
                assert("1"@[0] == '1' && "f"@[0] == 'f' && "n"@[0] == 'n' && "0"@[0] == '0');
            }
        }
        if str_ieq(self.text, "true") || str_ieq(self.text, "t") || str_ieq(self.text, "yes")
            || str_ieq(self.text, "y") || str_ieq(self.text, "1") {
            Ok(true)
        } else if str_ieq(self.text, "false") || str_ieq(self.text, "f") || str_ieq(
            self.text,
            "no",
        ) || str_ieq(self.text, "n") || str_ieq(self.text, "0") {
            Ok(false)
        } else {
            Err(parse_error(self.text, "a bool"))
        }
    }

    /// Single-character coercion: succeeds exactly when the substring is
    /// one character long.
    pub fn parse_char(self) -> (r: Result<char, Error>)
        ensures
            self.spec_text().len() == 1 ==> r == Ok::<char, Error>(self.spec_text()[0]),
            self.spec_text().len() != 1 ==> (r matches Err(e) && e@ == SpecErr::Parse(
                self.spec_text(),
            )),
    {
        if self.text.unicode_len() == 1 {
            Ok(self.text.get_char(0))
        } else {
            Err(parse_error(self.text, "a single char"))
        }
    }

    /// Parses the digits of `self.text` from character position `from`
    /// on, accumulating into a value bounded by `limit`.
    #[verifier::loop_isolation(false)]
    fn parse_digits(self, from: usize, limit: u64) -> (r: Result<u64, Error>)
        requires
            from <= self.spec_text().len(),
            limit >= 9,
        ensures
            ({
                let digits = self.spec_text().subrange(from as int, self.spec_text().len() as int);
                match r {
                    Ok(v) => spec_is_digits(digits) && digits_val(digits) == v && v <= limit,
                    Err(e) => (!spec_is_digits(digits) || digits_val(digits) > limit) && e@
                        == SpecErr::Parse(self.spec_text()),
                }
            }),
    {
        let s = self.text;
        let n = s.unicode_len();
        let ghost digits = s@.subrange(from as int, s@.len() as int);
        if from >= n {
            return Err(parse_error(s, "decimal digits"));
        }
        let mut acc: u64 = 0;
        let mut i: usize = from;
        while i < n
            invariant
                from <= i <= n,
                n == s@.len(),
                digits == s@.subrange(from as int, s@.len() as int),
                forall|j: int| from <= j < i ==> is_digit(#[trigger] s@[j]),
                acc == digits_val(s@.subrange(from as int, i as int)),
                acc <= limit,
            decreases n - i,
        {
            let c = s.get_char(i);
            if !('0' <= c && c <= '9') {
                assert(!spec_is_digits(digits)) by {
                    assert(digits[i - from] == s@[i as int]);
                }
                return Err(parse_error(s, "decimal digits"));
            }
            let d = (c as u32 - '0' as u32) as u64;
            assert(d <= 9);
            let ghost prefix = s@.subrange(from as int, i as int);
            let ghost prefix1 = s@.subrange(from as int, i + 1);
            assert(prefix1.drop_last() =~= prefix);
            assert(digits_val(prefix1) == acc * 10 + d);
            if acc > (limit - d) / 10 {
                // The digits read so far already exceed `limit`; the whole
                // literal can only be larger.
                assert(acc * 10 + d > limit) by (nonlinear_arith)
                    requires
                        acc > (limit - d) / 10,
                        0 <= d <= 9,
                        d <= limit,
                ;
                proof {
                    if spec_is_digits(digits) {
                        lemma_digits_val_prefix_le(digits, i + 1 - from);
                        assert(digits.subrange(0, i + 1 - from) =~= prefix1);
                    }
                }
                return Err(parse_error(s, "decimal digits"));
            }
            assert(acc * 10 + d <= limit) by (nonlinear_arith)
                requires
                    acc <= (limit - d) / 10,
                    0 <= d <= 9,
                    d <= limit,
            ;
            acc = acc * 10 + d;
            i += 1;
        }
        assert(digits =~= s@.subrange(from as int, i as int));
        Ok(acc)
    }

    /// Signed 64-bit integer coercion, with the syntax and range of
    /// `i64`'s standard textual parser.
    pub fn parse_i64(self) -> (r: Result<i64, Error>)
        ensures
            spec_is_i64(self.spec_text()) ==> r == Ok::<i64, Error>(
                spec_int_val(self.spec_text()) as i64,
            ),
            !spec_is_i64(self.spec_text()) ==> (r matches Err(e) && e@ == SpecErr::Parse(
                self.spec_text(),
            )),
    {
        let s = self.text;
        let n = s.unicode_len();
        let mut neg = false;
        let mut from: usize = 0;
        if n > 0 {
            let c0 = s.get_char(0);
            if c0 == '-' {
                neg = true;
                from = 1;
            } else if c0 == '+' {
                from = 1;
            }
        }
        let limit: u64 = if neg {
            9223372036854775808u64
        } else {
            9223372036854775807u64
        };
        let ghost body = spec_int_body(s@);
        assert(body =~= s@.subrange(from as int, s@.len() as int));
        match self.parse_digits(from, limit) {
            Ok(m) => {
                proof {
                    lemma_digits_val_nonneg(body);
                }
                if neg {
                    if m == 9223372036854775808u64 {
                        Ok(i64::MIN)
                    } else {
                        Ok(-(m as i64))
                    }
                } else {
                    Ok(m as i64)
                }
            },
            Err(e) => {
                proof {
                    if spec_is_i64(s@) {
                        lemma_digits_val_nonneg(body);
                    }
                }
                Err(e)
            },
        }
    }

    /// Unsigned 64-bit integer coercion, with the syntax and range of
    /// `u64`'s standard textual parser.
    pub fn parse_u64(self) -> (r: Result<u64, Error>)
        ensures
            spec_is_u64(self.spec_text()) ==> r == Ok::<u64, Error>(
                spec_int_val(self.spec_text()) as u64,
            ),
            !spec_is_u64(self.spec_text()) ==> (r matches Err(e) && e@ == SpecErr::Parse(
                self.spec_text(),
            )),
    {
        let s = self.text;
        let n = s.unicode_len();
        let mut from: usize = 0;
        if n > 0 && s.get_char(0) == '-' {
            return Err(parse_error(s, "decimal digits"));
        }
        if n > 0 && s.get_char(0) == '+' {
            from = 1;
        }
        let ghost body = spec_int_body(s@);
        assert(body =~= s@.subrange(from as int, s@.len() as int));
        match self.parse_digits(from, u64::MAX) {
            Ok(m) => {
                proof {
                    lemma_digits_val_nonneg(body);
                }
                Ok(m)
            },
            Err(e) => {
                proof {
                    if spec_is_u64(s@) {
                        lemma_digits_val_nonneg(body);
                    }
                }
                Err(e)
            },
        }
    }

    /// Coerces the substring to the requested shape: the common terminus of
    /// every recursive extraction path.
    ///
    /// An `Optional` request always resolves to present here — absence is
    /// handled upstream, by the dispatcher's match-or-none branch.  A `Span`
    /// request wraps the coerced value with the byte offsets of the whole
    /// substring in the original text.
    pub fn deserialize(self, req: &Request) -> (r: Result<Value, Error>)
        requires
            self.in_bounds(),
        ensures
            res_matches(r, spec_coerce(self.spec_text(), self.spec_start() as int, *req)),
            r matches Ok(v) ==> crate::semantics::spans_wf(
                v@,
                self.spec_start() as int,
                vstd::utf8::encode_utf8(self.spec_text()),
            ),
        decreases *req,
    {
        match req {
            Request::Bool => match self.parse_bool() {
                Ok(b) => Ok(Value::Bool(b)),
                Err(e) => Err(e),
            },
            Request::Char => {
                // Coerced in place rather than through `parse_char`: a
                // `char` drawn back out of the generic `Result` loses the
                // character-typing facts the proof of the view equality
                // needs.
                if self.text.unicode_len() == 1 {
                    Ok(Value::Char(self.text.get_char(0)))
                } else {
                    Err(parse_error(self.text, "a single char"))
                }
            },
            Request::Int => match self.parse_i64() {
                Ok(n) => Ok(Value::Int(n)),
                Err(e) => Err(e),
            },
            Request::UInt => match self.parse_u64() {
                Ok(n) => Ok(Value::UInt(n)),
                Err(e) => Err(e),
            },
            Request::Text => Ok(Value::Text(self.text.to_owned())),
            Request::Bytes => Ok(Value::Bytes(self.text.as_bytes_vec())),
            Request::Unit => Ok(Value::Unit),
            Request::Optional(inner) => match self.deserialize(&**inner) {
                Ok(v) => Ok(Value::Present(Box::new(v))),
                Err(e) => Err(e),
            },
            Request::Span(inner) => match self.deserialize(&**inner) {
                Ok(v) => {
                    let end = self.start + self.text.len();
                    proof {
                        let wb = vstd::utf8::encode_utf8(self.spec_text());
                        assert(wb.subrange(0, wb.len() as int) =~= wb);
                    }
                    Ok(Value::Span(Spanned::new_raw(Box::new(v), self.start, end)))
                },
                Err(e) => Err(e),
            },
            Request::List(_) => Err(Error::Protocol),
            Request::Record(_) => Err(Error::Protocol),
        }
    }
}

} // verus!
