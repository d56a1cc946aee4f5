//! The per-photo metadata record and the typed tag query engine.
//!
//! Each queryable tag name is classified as string-, integer- or
//! float-typed; a `(tag, operator, value)` predicate is then evaluated
//! with comparison semantics fitting the type. String comparisons are
//! case-insensitive; float-typed fields hold decimal text and are compared
//! through the library's fixed-point reading with a small tolerance for
//! equality; asking a relational operator of a string-typed tag is an
//! error, never a silent `false`.

use vstd::prelude::*;
use crate::decimal::{dec_cmp, dec_cmp_spec, dec_parse_chars, dec_parse_spec, DEC_EPS, DEC_MAX};
use crate::error::PhotoInsightError;
use crate::text::{
    chars_contain, chars_end_with, chars_eq, chars_start_with, chars_to_string, lower_of,
    lowercase, parse_u32_chars, parse_uint_spec, seq_ends, seq_has, seq_starts, str_chars, str_eq,
    unquote_chars, unquoted,
};

verus! {

/// Decoded metadata for one photo. Numeric-looking fields are stored as
/// text, `"0"` standing for absent or unparsable values; string fields
/// default to `"unknown"`; `year` and `month` are zero when the date text
/// carries no recognizable date.
#[derive(Debug, PartialEq)]
pub struct ExifInfo {
    pub year: u32,
    pub month: u32,
    pub model: String,
    pub width: u32,
    pub height: u32,
    pub date_time: String,
    pub aperture: String,
    pub shutter_speed: String,
    pub iso: String,
    pub focal_len: String,
    pub lens: String,
}

/// The mathematical shadow of [`ExifInfo`].
pub struct ExifInfoV {
    pub year: u32,
    pub month: u32,
    pub model: Seq<char>,
    pub width: u32,
    pub height: u32,
    pub date_time: Seq<char>,
    pub aperture: Seq<char>,
    pub shutter_speed: Seq<char>,
    pub iso: Seq<char>,
    pub focal_len: Seq<char>,
    pub lens: Seq<char>,
}

impl View for ExifInfo {
    type V = ExifInfoV;

    open spec fn view(&self) -> ExifInfoV {
        ExifInfoV {
            year: self.year,
            month: self.month,
            model: self.model@,
            width: self.width,
            height: self.height,
            date_time: self.date_time@,
            aperture: self.aperture@,
            shutter_speed: self.shutter_speed@,
            iso: self.iso@,
            focal_len: self.focal_len@,
            lens: self.lens@,
        }
    }
}

impl Clone for ExifInfo {
    /// A clone carries the same view.
    fn clone(&self) -> (r: ExifInfo)
        ensures
            r@ == self@,
    {
        ExifInfo {
            year: self.year,
            month: self.month,
            model: self.model.clone(),
            width: self.width,
            height: self.height,
            date_time: self.date_time.clone(),
            aperture: self.aperture.clone(),
            shutter_speed: self.shutter_speed.clone(),
            iso: self.iso.clone(),
            focal_len: self.focal_len.clone(),
            lens: self.lens.clone(),
        }
    }
}

/// The type a tag name is classified under.
#[derive(Debug, Clone, Copy, PartialEq, Eq, Structural)]
pub enum TagKind {
    /// Compared as case-insensitive text.
    Text,
    /// Compared as an unsigned integer.
    Integer,
    /// Compared through the fixed-point decimal reading.
    Decimal,
}

/// The fixed classification of queryable tag names.
pub open spec fn tag_kind_of(tag: Seq<char>) -> Option<TagKind> {
    if tag == "model"@ || tag == "lens"@ {
        Some(TagKind::Text)
    } else if tag == "aperture"@ || tag == "shutter_speed"@ || tag == "iso"@ || tag
        == "focal_len"@ {
        Some(TagKind::Decimal)
    } else if tag == "width"@ || tag == "height"@ || tag == "year"@ || tag == "month"@ {
        Some(TagKind::Integer)
    } else {
        None
    }
}

/// The text field a string-typed tag selects.
pub open spec fn text_field(e: ExifInfoV, tag: Seq<char>) -> Seq<char> {
    if tag == "model"@ {
        e.model
    } else {
        e.lens
    }
}

/// The text field a float-typed tag selects.
pub open spec fn dec_field(e: ExifInfoV, tag: Seq<char>) -> Seq<char> {
    if tag == "aperture"@ {
        e.aperture
    } else if tag == "shutter_speed"@ {
        e.shutter_speed
    } else if tag == "iso"@ {
        e.iso
    } else {
        e.focal_len
    }
}

/// The integer field an integer-typed tag selects.
pub open spec fn int_field(e: ExifInfoV, tag: Seq<char>) -> u32 {
    if tag == "width"@ {
        e.width
    } else if tag == "height"@ {
        e.height
    } else if tag == "year"@ {
        e.year
    } else {
        e.month
    }
}

/// Case-insensitive text comparison under the five string operators. The
/// stored field is stripped of the literal quotes extraction wraps it in,
/// so the quotes never defeat a match.
pub open spec fn text_cmp_spec(s: Seq<char>, value: Seq<char>, op: Seq<char>) -> Option<bool> {
    if op == "=="@ {
        Some(lower_of(unquoted(s)) == lower_of(value))
    } else if op == "!="@ {
        Some(lower_of(unquoted(s)) != lower_of(value))
    } else if op == "contains"@ {
        Some(seq_has(lower_of(unquoted(s)), lower_of(value)))
    } else if op == "starts_with"@ {
        Some(seq_starts(lower_of(unquoted(s)), lower_of(value)))
    } else if op == "ends_with"@ {
        Some(seq_ends(lower_of(unquoted(s)), lower_of(value)))
    } else {
        None
    }
}

/// Integer comparison under the six relational operators.
pub open spec fn int_cmp_spec(n: u32, value: Seq<char>, op: Seq<char>) -> Option<bool> {
    match parse_uint_spec(value, u32::MAX as nat) {
        None => None,
        Some(m) => {
            if op == "=="@ {
                Some((n as nat) == m)
            } else if op == "!="@ {
                Some((n as nat) != m)
            } else if op == ">"@ {
                Some((n as nat) > m)
            } else if op == "<"@ {
                Some((n as nat) < m)
            } else if op == ">="@ {
                Some((n as nat) >= m)
            } else if op == "<="@ {
                Some((n as nat) <= m)
            } else {
                None
            }
        },
    }
}

/// What evaluating a `(tag, operator, value)` predicate against a record
/// yields: a boolean, or nothing when the tag name is unknown, the
/// operator does not fit the tag's type, or a numeric text does not parse.
pub open spec fn eval_query(e: ExifInfoV, tag: Seq<char>, value: Seq<char>, op: Seq<char>) -> Option<
    bool,
> {
    match tag_kind_of(tag) {
        None => None,
        Some(TagKind::Text) => text_cmp_spec(text_field(e, tag), value, op),
        Some(TagKind::Integer) => int_cmp_spec(int_field(e, tag), value, op),
        Some(TagKind::Decimal) => match dec_parse_spec(dec_field(e, tag)) {
            None => None,
            Some(a) => match dec_parse_spec(value) {
                None => None,
                Some(b) => dec_cmp_spec(a, b, op),
            },
        },
    }
}

/// The five operators a string-typed tag accepts.
pub open spec fn is_text_op(op: Seq<char>) -> bool {
    op == "=="@ || op == "!="@ || op == "contains"@ || op == "starts_with"@ || op == "ends_with"@
}

/// The six relational operators a numeric tag accepts.
pub open spec fn is_rel_op(op: Seq<char>) -> bool {
    op == "=="@ || op == "!="@ || op == ">"@ || op == "<"@ || op == ">="@ || op == "<="@
}

/// A query is well formed when the tag is known, the operator fits the
/// tag's type, and the comparison literal parses as that type — all of it
/// independent of any record.
pub open spec fn query_valid(tag: Seq<char>, value: Seq<char>, op: Seq<char>) -> bool {
    match tag_kind_of(tag) {
        None => false,
        Some(TagKind::Text) => is_text_op(op),
        Some(TagKind::Integer) => parse_uint_spec(value, u32::MAX as nat) is Some && is_rel_op(op),
        Some(TagKind::Decimal) => dec_parse_spec(value) is Some && is_rel_op(op),
    }
}

/// A typed tag value pulled out of a record.
pub enum ExifTagValue {
    /// A string-typed field's text.
    Text(String),
    /// An integer-typed field's value.
    Integer(u32),
    /// A float-typed field's text under the fixed-point reading.
    Scaled(i128),
}

/// Builds an error message from a fixed text and a culprit.
fn message_with(prefix: &str, culprit: &str) -> (r: String)
    ensures
        r@ == prefix@ + culprit@,
{
    let mut m = str_chars(prefix);
    crate::text::append_str(&mut m, culprit);
    chars_to_string(&m)
}

impl ExifInfo {
    /// Extracts the value of the named tag, classified by type. Fails on
    /// an unknown tag name and on a float-typed field whose text does not
    /// parse under the fixed-point reading.
    pub fn extract_tag_value(&self, tag_name: &str) -> (r: Result<
        ExifTagValue,
        PhotoInsightError,
    >)
        ensures
            match tag_kind_of(tag_name@) {
                None => r is Err,
                Some(TagKind::Text) => r matches Ok(ExifTagValue::Text(s)) && s@ == text_field(
                    self@,
                    tag_name@,
                ),
                Some(TagKind::Integer) => r matches Ok(ExifTagValue::Integer(n)) && n == int_field(
                    self@,
                    tag_name@,
                ),
                Some(TagKind::Decimal) => match dec_parse_spec(dec_field(self@, tag_name@)) {
                    Some(a) => r matches Ok(ExifTagValue::Scaled(x)) && x as int == a && -DEC_MAX
                        <= x <= DEC_MAX,
                    None => r is Err,
                },
            },
    {
        if str_eq(tag_name, "model") {
            Ok(ExifTagValue::Text(self.model.clone()))
        } else if str_eq(tag_name, "lens") {
            Ok(ExifTagValue::Text(self.lens.clone()))
        } else if str_eq(tag_name, "aperture") || str_eq(tag_name, "shutter_speed") || str_eq(
            tag_name,
            "iso",
        ) || str_eq(tag_name, "focal_len") {
            let field: &String = if str_eq(tag_name, "aperture") {
                &self.aperture
            } else if str_eq(tag_name, "shutter_speed") {
                &self.shutter_speed
            } else if str_eq(tag_name, "iso") {
                &self.iso
            } else {
                &self.focal_len
            };
            let cs = str_chars(field.as_str());
            match dec_parse_chars(&cs) {
                Some(x) => Ok(ExifTagValue::Scaled(x)),
                None => Err(
                    PhotoInsightError::from_message(message_with("Invalid float value", "")),
                ),
            }
        } else if str_eq(tag_name, "width") {
            Ok(ExifTagValue::Integer(self.width))
        } else if str_eq(tag_name, "height") {
            Ok(ExifTagValue::Integer(self.height))
        } else if str_eq(tag_name, "year") {
            Ok(ExifTagValue::Integer(self.year))
        } else if str_eq(tag_name, "month") {
            Ok(ExifTagValue::Integer(self.month))
        } else {
            Err(PhotoInsightError::from_message(message_with("Invalid tag name: ", tag_name)))
        }
    }

    /// Compares an extracted tag value against query text under an
    /// operator, with semantics fitting the value's type.
    pub fn match_exif_tag_value(value: ExifTagValue, tag_value: &str, operator: &str) -> (r: Result<
        bool,
        PhotoInsightError,
    >)
        requires
            value matches ExifTagValue::Scaled(x) ==> -DEC_MAX <= x <= DEC_MAX,
        ensures
            match value {
                ExifTagValue::Text(s) => match text_cmp_spec(s@, tag_value@, operator@) {
                    Some(b) => r == Ok::<bool, PhotoInsightError>(b),
                    None => r is Err,
                },
                ExifTagValue::Integer(n) => match int_cmp_spec(n, tag_value@, operator@) {
                    Some(b) => r == Ok::<bool, PhotoInsightError>(b),
                    None => r is Err,
                },
                ExifTagValue::Scaled(x) => match dec_parse_spec(tag_value@) {
                    None => r is Err,
                    Some(b) => match dec_cmp_spec(x as int, b, operator@) {
                        Some(v) => r == Ok::<bool, PhotoInsightError>(v),
                        None => r is Err,
                    },
                },
            },
    {
        match value {
            ExifTagValue::Text(s) => {
                let s_uq = unquote_chars(&str_chars(s.as_str()));
                let s_low = str_chars(lowercase(chars_to_string(&s_uq).as_str()).as_str());
                let v_low = str_chars(lowercase(tag_value).as_str());
                if str_eq(operator, "==") {
                    Ok(chars_eq(&s_low, &v_low))
                } else if str_eq(operator, "!=") {
                    Ok(!chars_eq(&s_low, &v_low))
                } else if str_eq(operator, "contains") {
                    Ok(chars_contain(&s_low, &v_low))
                } else if str_eq(operator, "starts_with") {
                    Ok(chars_start_with(&s_low, &v_low))
                } else if str_eq(operator, "ends_with") {
                    Ok(chars_end_with(&s_low, &v_low))
                } else {
                    Err(
                        PhotoInsightError::from_message(
                            message_with("Invalid operator for string: ", operator),
                        ),
                    )
                }
            },
            ExifTagValue::Integer(n) => {
                let vc = str_chars(tag_value);
                match parse_u32_chars(&vc) {
                    None => Err(
                        PhotoInsightError::from_message(
                            message_with("Invalid number value for comparison", ""),
                        ),
                    ),
                    Some(m) => {
                        if str_eq(operator, "==") {
                            Ok(n == m)
                        } else if str_eq(operator, "!=") {
                            Ok(n != m)
                        } else if str_eq(operator, ">") {
                            Ok(n > m)
                        } else if str_eq(operator, "<") {
                            Ok(n < m)
                        } else if str_eq(operator, ">=") {
                            Ok(n >= m)
                        } else if str_eq(operator, "<=") {
                            Ok(n <= m)
                        } else {
                            Err(
                                PhotoInsightError::from_message(
                                    message_with("Invalid operator for number: ", operator),
                                ),
                            )
                        }
                    },
                }
            },
            ExifTagValue::Scaled(x) => {
                let vc = str_chars(tag_value);
                match dec_parse_chars(&vc) {
                    None => Err(
                        PhotoInsightError::from_message(
                            message_with("Invalid float value for comparison", ""),
                        ),
                    ),
                    Some(b) => match dec_cmp(x, b, operator) {
                        Some(v) => Ok(v),
                        None => Err(
                            PhotoInsightError::from_message(
                                message_with("Invalid operator for float: ", operator),
                            ),
                        ),
                    },
                }
            },
        }
    }

    /// Evaluates a `(tag, operator, value)` predicate against this record.
    /// Succeeds exactly when the tag is known, the operator fits the
    /// tag's type, and any numeric text parses.
    pub fn matches_query(&self, tag_name: &String, tag_value: &String, operator: &String) -> (r:
        Result<bool, PhotoInsightError>)
        ensures
            match eval_query(self@, tag_name@, tag_value@, operator@) {
                Some(b) => r == Ok::<bool, PhotoInsightError>(b),
                None => r is Err,
            },
    {
        let v = self.extract_tag_value(tag_name.as_str())?;
        ExifInfo::match_exif_tag_value(v, tag_value.as_str(), operator.as_str())
    }
}

/// Decides whether the operator is one a string-typed tag accepts.
fn text_op(op: &str) -> (r: bool)
    ensures
        r == is_text_op(op@),
{
    str_eq(op, "==") || str_eq(op, "!=") || str_eq(op, "contains") || str_eq(op, "starts_with")
        || str_eq(op, "ends_with")
}

/// Decides whether the operator is one a numeric tag accepts.
fn rel_op(op: &str) -> (r: bool)
    ensures
        r == is_rel_op(op@),
{
    str_eq(op, "==") || str_eq(op, "!=") || str_eq(op, ">") || str_eq(op, "<") || str_eq(op, ">=")
        || str_eq(op, "<=")
}

/// Checks the record-independent parts of a query — the tag name, the
/// operator's fit to the tag's type, and the comparison literal — so that
/// a bad query surfaces to its caller instead of silently matching
/// nothing. Succeeds exactly when the query is well formed.
pub fn validate_query(tag_name: &String, tag_value: &String, operator: &String) -> (r: Result<
    (),
    PhotoInsightError,
>)
    ensures
        r is Ok <==> query_valid(tag_name@, tag_value@, operator@),
{
    let tag = tag_name.as_str();
    if str_eq(tag, "model") || str_eq(tag, "lens") {
        if text_op(operator.as_str()) {
            Ok(())
        } else {
            Err(
                PhotoInsightError::from_message(
                    message_with("Invalid operator for string: ", operator.as_str()),
                ),
            )
        }
    } else if str_eq(tag, "aperture") || str_eq(tag, "shutter_speed") || str_eq(tag, "iso")
        || str_eq(tag, "focal_len") {
        let vc = str_chars(tag_value.as_str());
        if dec_parse_chars(&vc).is_none() {
            Err(
                PhotoInsightError::from_message(
                    message_with("Invalid float value for comparison", ""),
                ),
            )
        } else if rel_op(operator.as_str()) {
            Ok(())
        } else {
            Err(
                PhotoInsightError::from_message(
                    message_with("Invalid operator for float: ", operator.as_str()),
                ),
            )
        }
    } else if str_eq(tag, "width") || str_eq(tag, "height") || str_eq(tag, "year") || str_eq(
        tag,
        "month",
    ) {
        let vc = str_chars(tag_value.as_str());
        if parse_u32_chars(&vc).is_none() {
            Err(
                PhotoInsightError::from_message(
                    message_with("Invalid number value for comparison", ""),
                ),
            )
        } else if rel_op(operator.as_str()) {
            Ok(())
        } else {
            Err(
                PhotoInsightError::from_message(
                    message_with("Invalid operator for number: ", operator.as_str()),
                ),
            )
        }
    } else {
        Err(
            PhotoInsightError::from_message(
                message_with("Invalid tag name: ", tag_name.as_str()),
            ),
        )
    }
}

/// A relational operator asked of a string-typed tag is an error, never a
/// boolean.
pub proof fn lemma_relational_on_text_tag_errs(
    e: ExifInfoV,
    tag: Seq<char>,
    value: Seq<char>,
    op: Seq<char>,
)
    requires
        tag_kind_of(tag) == Some(TagKind::Text),
        op == ">"@ || op == "<"@ || op == ">="@ || op == "<="@,
    ensures
        eval_query(e, tag, value, op) is None,
{
    reveal_strlit(">");
    reveal_strlit("<");
    reveal_strlit(">=");
    reveal_strlit("<=");
    reveal_strlit("==");
    reveal_strlit("!=");
    reveal_strlit("contains");
    reveal_strlit("starts_with");
    reveal_strlit("ends_with");
    assert("=="@.len() == 2 && "!="@.len() == 2 && ">="@.len() == 2 && "<="@.len() == 2);
    assert(">"@.len() == 1 && "<"@.len() == 1);
    assert("contains"@.len() == 8 && "starts_with"@.len() == 11 && "ends_with"@.len() == 9);
    assert("=="@[0] == '=' && "!="@[0] == '!' && ">="@[0] == '>' && "<="@[0] == '<');
}

/// Two float-typed values closer together than the tolerance compare
/// equal under `==`, and `!=` denies them.
pub proof fn lemma_query_eps_equality(e: ExifInfoV, tag: Seq<char>, value: Seq<char>)
    requires
        tag_kind_of(tag) == Some(TagKind::Decimal),
        dec_parse_spec(dec_field(e, tag)) is Some,
        dec_parse_spec(value) is Some,
        -(DEC_EPS as int) < dec_parse_spec(dec_field(e, tag)).unwrap() - dec_parse_spec(
            value,
        ).unwrap() < DEC_EPS as int,
    ensures
        eval_query(e, tag, value, "=="@) == Some(true),
        eval_query(e, tag, value, "!="@) == Some(false),
{
    crate::decimal::lemma_eps_equality(
        dec_parse_spec(dec_field(e, tag)).unwrap(),
        dec_parse_spec(value).unwrap(),
    );
}

} // verus!
