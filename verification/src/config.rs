//! What the process monitor is asked to show.

use std::num::{IntErrorKind, ParseIntError};
use std::time::Duration;

use vstd::prelude::*;

use crate::text::{
    joined, joined_parts_are_the_pieces, pieces, prefixed, same_text, split, texts,
};

verus! {

/// [`std::num::ParseIntError`], carried through as it came.
#[verifier::external_type_specification]
#[verifier::external_body]
pub struct ExParseIntError(ParseIntError);

/// Specification of one field of information to print about a collection of PIDs.
///
/// `V` is what the threshold of [`Field::IfGreater`] is given in.
#[derive(Clone, Debug)]
pub enum Field<V> {
    /// Print the sum of all process trees' CPU usage.
    Sum,
    /// Print CPU usage of each process tree.
    AllLoads,
    /// Print one string when total CPU usage of all process trees is above a threshold, or a
    /// different string otherwise.
    IfGreater {
        /// The threshold.
        value: V,
        /// String to be printed when CPU usage above threshold.
        then: String,
        /// String to be printed otherwise.
        otherwise: Option<String>,
    },
}

/// What a [`Field`] says.
pub enum FieldView<V> {
    Sum,
    AllLoads,
    IfGreater { value: V, then: Seq<char>, otherwise: Option<Seq<char>> },
}

/// Application configuration.
#[derive(Debug)]
pub struct Config<V> {
    /// The collection of PIDs to monitor.
    pub pids: Vec<i32>,
    /// The maximum time to collect statistics.
    pub timeout: Option<Duration>,
    /// The list of output fields to print with each update.
    pub fields: Vec<Field<V>>,
}

impl<V> Config<V> {
    /// Whether there is something to monitor.
    pub open spec fn valid(self) -> bool {
        self.pids@.len() > 0
    }
}

/// What an optional string reads.
pub open spec fn text_of(text: Option<String>) -> Option<Seq<char>> {
    match text {
        Some(t) => Some(t@),
        None => None,
    }
}

impl<V> View for Field<V> {
    type V = FieldView<V>;

    open spec fn view(&self) -> FieldView<V> {
        match *self {
            Field::Sum => FieldView::Sum,
            Field::AllLoads => FieldView::AllLoads,
            Field::IfGreater { value, then, otherwise } => FieldView::IfGreater {
                value,
                then: then@,
                otherwise: text_of(otherwise),
            },
        }
    }
}

/// What came of reading a field: the field, or the message that says what is wrong.
pub open spec fn outcome<V>(read: Result<Field<V>, String>) -> Result<FieldView<V>, Seq<char>> {
    match read {
        Ok(field) => Ok(field@),
        Err(message) => Err(message@),
    }
}

/// What came of reading a threshold.
pub open spec fn threshold<V>(parsed: Result<V, String>) -> Result<V, Seq<char>> {
    match parsed {
        Ok(value) => Ok(value),
        Err(message) => Err(message@),
    }
}

/// The field `if_greater:value:then[:else]`, where `value` was read as `parsed`.
pub open spec fn if_greater_of<V>(
    parsed: Result<V, Seq<char>>,
    then: Option<Seq<char>>,
    otherwise: Option<Seq<char>>,
) -> Result<FieldView<V>, Seq<char>> {
    match (parsed, then) {
        (Err(message), _) => Err("wrong value: "@ + message),
        (Ok(_), None) => Err("missing then-clause"@),
        (Ok(value), Some(then)) => Ok(FieldView::IfGreater { value, then, otherwise }),
    }
}

/// The token of `tokens` at `at`, if there are so many.
pub open spec fn token(tokens: Seq<Seq<char>>, at: int) -> Option<Seq<char>> {
    if at < tokens.len() {
        Some(tokens[at])
    } else {
        None
    }
}

/// The text of the threshold in `text`, if it is a field that has one and names it.
pub open spec fn threshold_text(text: Seq<char>) -> Option<Seq<char>> {
    if pieces(text, ':')[0] == "if_greater"@ {
        token(pieces(text, ':'), 1)
    } else {
        None
    }
}

/// The field that `text` specifies, where its threshold, if it has one, is read as `parsed`.
pub open spec fn field_of<V>(text: Seq<char>, parsed: Result<V, Seq<char>>) -> Result<
    FieldView<V>,
    Seq<char>,
> {
    let tokens = pieces(text, ':');
    if tokens[0] == ""@ {
        Err("missing field name"@)
    } else if tokens[0] == "sum"@ {
        Ok(FieldView::Sum)
    } else if tokens[0] == "all_loads"@ {
        Ok(FieldView::AllLoads)
    } else if tokens[0] == "if_greater"@ {
        if tokens.len() < 2 {
            Err("missing value"@)
        } else {
            if_greater_of(parsed, token(tokens, 2), token(tokens, 3))
        }
    } else {
        Err("unknown field "@ + tokens[0])
    }
}

/// The token at `at`, if there are so many.
fn token_at(tokens: &Vec<String>, at: usize) -> (found: Option<String>)
    ensures
        text_of(found) == token(texts(tokens@), at as int),
{
    if at < tokens.len() {
        Some(tokens[at].clone())
    } else {
        None
    }
}

impl<V> Field<V> {
    /// The field `if_greater:value:then[:else]`, where `value` was read as `parsed`.
    pub fn if_greater(
        parsed: Result<V, String>,
        then: Option<String>,
        otherwise: Option<String>,
    ) -> (field: Result<Field<V>, String>)
        ensures
            outcome(field) == if_greater_of(threshold(parsed), text_of(then), text_of(otherwise)),
    {
        match (parsed, then) {
            (Err(message), _) => Err(prefixed("wrong value: ", message.as_str())),
            (Ok(_), None) => Err("missing then-clause".to_owned()),
            (Ok(value), Some(then)) => Ok(Field::IfGreater { value, then, otherwise }),
        }
    }

    /// Reads `sum`, `all_loads` or `if_greater:value:then[:else]`; further tokens do not count.
    ///
    /// `parse_value` reads a threshold. It is asked only where there is one to read.
    pub fn from_str<F>(value: &str, parse_value: F) -> (field: Result<Field<V>, String>) where
        F: FnOnce(&str) -> Result<V, String>,

        requires
            forall|text: &str|
                threshold_text(value@) == Some(text@) ==> #[trigger] call_requires(
                    parse_value,
                    (text,),
                ),
        ensures
            threshold_text(value@) is None ==> forall|parsed: Result<V, Seq<char>>|
                outcome(field) == #[trigger] field_of(value@, parsed),
            threshold_text(value@) is Some ==> exists|text: &str, parsed: Result<V, String>|
                {
                    &&& threshold_text(value@) == Some(text@)
                    &&& #[trigger] call_ensures(parse_value, (text,), parsed)
                    &&& outcome(field) == field_of(value@, threshold(parsed))
                },
    {
        let tokens: Vec<String> = split(value, ':');
        let name: &str = tokens[0].as_str();
        proof {
            reveal_strlit("");
            reveal_strlit("sum");
            reveal_strlit("all_loads");
            reveal_strlit("if_greater");
            assert(""@.len() == 0 && "sum"@.len() == 3 && "all_loads"@.len() == 9
                && "if_greater"@.len() == 10);
            assert(name@ == pieces(value@, ':')[0]);
        }
        if same_text(name, "") {
            Err("missing field name".to_owned())
        } else if same_text(name, "sum") {
            Ok(Field::Sum)
        } else if same_text(name, "all_loads") {
            Ok(Field::AllLoads)
        } else if same_text(name, "if_greater") {
            if tokens.len() < 2 {
                return Err("missing value".to_owned());
            }
            let text: &str = tokens[1].as_str();
            let parsed: Result<V, String> = parse_value(text);
            let ghost read = parsed;
            let field = Field::if_greater(parsed, token_at(&tokens, 2), token_at(&tokens, 3));
            proof {
                assert(threshold_text(value@) == Some(text@));
                assert(call_ensures(parse_value, (text,), read));
                assert(outcome(field) == field_of(value@, threshold(read)));
            }
            field
        } else {
            Err(prefixed("unknown field ", name))
        }
    }
}

/// Whether `c` is one of the ten decimal digits.
pub open spec fn is_digit(c: char) -> bool {
    '0' <= c <= '9'
}

/// The number that decimal `digits` stand for.
pub open spec fn decimal(digits: Seq<char>) -> nat
    decreases digits.len(),
{
    if digits.len() == 0 {
        0
    } else {
        10 * decimal(digits.drop_last()) + (digits.last() as nat - '0' as nat) as nat
    }
}

/// What is left of `text` without a leading plus sign.
pub open spec fn unsigned(text: Seq<char>) -> Seq<char> {
    if text.len() > 0 && text[0] == '+' {
        text.skip(1)
    } else {
        text
    }
}

/// Whether `text` is a whole number: an optional plus sign and at least one digit, nothing else.
pub open spec fn is_whole_number(text: Seq<char>) -> bool {
    &&& unsigned(text).len() > 0
    &&& forall|i: int| 0 <= i < unsigned(text).len() ==> is_digit(#[trigger] unsigned(text)[i])
}

/// What is wrong with a number that could not be read.
#[derive(Debug, Clone, Copy, PartialEq, Eq, Structural)]
pub enum NumberFault {
    /// There is nothing to read.
    Empty,
    /// There is a character that does not belong into a number.
    InvalidDigit,
    /// The number is too large.
    PosOverflow,
    /// The number is too small.
    NegOverflow,
    /// The number is zero where it must not be.
    Zero,
    /// Something else.
    Other,
}

/// [`ParseIntError::kind`]: which of the kinds the error is of. Nothing is claimed of it here; what
/// it tells of an error is said where the error comes from.
#[verifier::external_body]
fn error_kind(error: &ParseIntError) -> (fault: NumberFault)
{
    match error.kind() {
        IntErrorKind::Empty => NumberFault::Empty,
        IntErrorKind::InvalidDigit => NumberFault::InvalidDigit,
        IntErrorKind::PosOverflow => NumberFault::PosOverflow,
        IntErrorKind::NegOverflow => NumberFault::NegOverflow,
        IntErrorKind::Zero => NumberFault::Zero,
        _ => NumberFault::Other,
    }
}

/// Whether `fault` is what `error` tells, and nothing else.
pub closed spec fn tells(error: ParseIntError, fault: NumberFault) -> bool {
    forall|told: NumberFault| #[trigger]
        call_ensures(error_kind, (&error,), told) ==> told == fault
}

/// What `error` tells to be wrong.
pub fn fault_of(error: &ParseIntError) -> (told: NumberFault)
    ensures
        forall|fault: NumberFault| #[trigger] tells(*error, fault) ==> told == fault,
{
    error_kind(error)
}

/// What is wrong with `text`, which is no number that fits.
///
/// Nothing is said of a text of twenty characters or more that is no whole number: it may be too
/// large as far as it goes.
pub open spec fn fault_in(text: Seq<char>) -> Option<NumberFault> {
    if text.len() == 0 {
        Some(NumberFault::Empty)
    } else if is_whole_number(text) {
        Some(NumberFault::PosOverflow)
    } else if text.len() < 20 {
        Some(NumberFault::InvalidDigit)
    } else {
        None
    }
}

/// The duration of so many whole seconds.
pub uninterp spec fn duration_of_secs(secs: u64) -> Duration;

/// [`Duration::from_secs`]: the duration depends on the number of seconds and on nothing else.
pub assume_specification[ Duration::from_secs ](secs: u64) -> (duration: Duration)
    ensures
        duration == duration_of_secs(secs),
;

/// [`str::parse`] for [`u64`]: an optional plus sign followed by digits only is read as the number
/// that it stands for, as long as that fits. Everything else is an error: it tells that the text is
/// empty, that the number is too large, or, of a text too short for that, that there is a character
/// which does not belong there.
#[verifier::external_body]
fn parse_u64(text: &str) -> (number: Result<u64, ParseIntError>)
    ensures
        match number {
            Ok(n) => is_whole_number(text@) && n == decimal(unsigned(text@)),
            Err(error) => !(is_whole_number(text@) && decimal(unsigned(text@)) <= u64::MAX)
                && match fault_in(text@) {
                Some(fault) => tells(error, fault),
                None => true,
            },
        },
{
    text.parse()
}

/// Reads a duration that is given in whole seconds.
pub fn parse_timeout_duration(arg: &str) -> (duration: Result<Duration, ParseIntError>)
    ensures
        duration is Ok <==> is_whole_number(arg@) && decimal(unsigned(arg@)) <= u64::MAX,
        match duration {
            Ok(d) => d == duration_of_secs(decimal(unsigned(arg@)) as u64),
            Err(error) => match fault_in(arg@) {
                Some(fault) => tells(error, fault),
                None => true,
            },
        },
{
    match parse_u64(arg) {
        Ok(seconds) => Ok(Duration::from_secs(seconds)),
        Err(error) => Err(error),
    }
}

/// Whether `tokens` are the tokens of a text in which they stand with colons between them.
pub open spec fn are_tokens(tokens: Seq<Seq<char>>) -> bool {
    &&& tokens.len() > 0
    &&& forall|i: int| 0 <= i < tokens.len() ==> !(#[trigger] tokens[i]).contains(':')
}

proof fn lemma_names_differ()
    ensures
        ""@.len() == 0,
        "sum"@.len() == 3,
        "all_loads"@.len() == 9,
        "if_greater"@.len() == 10,
{
    reveal_strlit("");
    reveal_strlit("sum");
    reveal_strlit("all_loads");
    reveal_strlit("if_greater");
}

/// A field without a threshold is given by its name, whatever tokens follow it, and no text is read
/// as a threshold for it.
pub proof fn plain_fields_are_their_names<V>(
    tokens: Seq<Seq<char>>,
    parsed: Result<V, Seq<char>>,
)
    requires
        are_tokens(tokens),
    ensures
        ({
            let text = joined(tokens, seq![':']);
            let read = field_of(text, parsed);
            &&& read == Ok::<FieldView<V>, Seq<char>>(FieldView::Sum) <==> tokens[0] == "sum"@
            &&& read == Ok::<FieldView<V>, Seq<char>>(FieldView::AllLoads) <==> tokens[0]
                == "all_loads"@
            &&& tokens[0] != "if_greater"@ ==> threshold_text(text) is None
        }),
{
    joined_parts_are_the_pieces(tokens, ':');
    lemma_names_differ();
}

/// A field with a threshold is given by its name, the threshold, the text for a sum above it and,
/// where there is one, the text for another sum; tokens after that do not count.
pub proof fn field_with_threshold_is_read<V>(tokens: Seq<Seq<char>>, value: V)
    requires
        are_tokens(tokens),
        tokens[0] == "if_greater"@,
        tokens.len() >= 3,
    ensures
        ({
            let text = joined(tokens, seq![':']);
            &&& threshold_text(text) == Some(tokens[1])
            &&& field_of(text, Ok::<V, Seq<char>>(value)) == Ok::<FieldView<V>, Seq<char>>(
                FieldView::IfGreater {
                    value,
                    then: tokens[2],
                    otherwise: if tokens.len() >= 4 {
                        Some(tokens[3])
                    } else {
                        None
                    },
                },
            )
        }),
{
    joined_parts_are_the_pieces(tokens, ':');
    lemma_names_differ();
}

/// What is wrong with a text that gives no field: it has no name or an unknown one, or the field has
/// no threshold, or one that cannot be read, or no text for a sum above it. What comes first in the
/// text is told.
pub proof fn field_errors_tell_what_is_wrong<V>(
    tokens: Seq<Seq<char>>,
    parsed: Result<V, Seq<char>>,
)
    requires
        are_tokens(tokens),
    ensures
        ({
            let read = field_of(joined(tokens, seq![':']), parsed);
            let name = tokens[0];
            &&& name.len() == 0 ==> read == Err::<FieldView<V>, Seq<char>>("missing field name"@)
            &&& name.len() > 0 && name != "sum"@ && name != "all_loads"@ && name != "if_greater"@
                ==> read == Err::<FieldView<V>, Seq<char>>("unknown field "@ + name)
            &&& name == "if_greater"@ && tokens.len() == 1 ==> read == Err::<
                FieldView<V>,
                Seq<char>,
            >("missing value"@)
            &&& name == "if_greater"@ && tokens.len() >= 2 ==> (parsed matches Err(message)
                ==> read == Err::<FieldView<V>, Seq<char>>("wrong value: "@ + message))
            &&& name == "if_greater"@ && tokens.len() == 2 && parsed is Ok ==> read == Err::<
                FieldView<V>,
                Seq<char>,
            >("missing then-clause"@)
        }),
{
    joined_parts_are_the_pieces(tokens, ':');
    lemma_names_differ();
    if tokens[0].len() == 0 {
        assert(tokens[0] =~= ""@);
    }
}

/// A number is worth its last digit and ten times what stands before it; leading zeros and a plus
/// sign do not count.
pub proof fn digits_are_worth_their_place(digits: Seq<char>, digit: char)
    requires
        is_digit(digit),
    ensures
        decimal(digits.push(digit)) == 10 * decimal(digits) + (digit as nat - '0' as nat),
        decimal(seq!['0'] + digits) == decimal(digits),
        unsigned(seq!['+'] + digits) == digits,
    decreases digits.len(),
{
    assert(digits.push(digit).drop_last() =~= digits);
    assert((seq!['+'] + digits).skip(1) =~= digits);
    if digits.len() == 0 {
        assert(seq!['0'] + digits =~= seq!['0']);
        assert(seq!['0'].drop_last() =~= Seq::<char>::empty());
        reveal_with_fuel(decimal, 2);
    } else {
        assert((seq!['0'] + digits).drop_last() =~= seq!['0'] + digits.drop_last());
        digits_are_worth_their_place(digits.drop_last(), digit);
    }
}

/// What a field says is what it holds, and what comes of reading one is the field or the message as
/// it is.
pub proof fn fields_say_what_they_hold<V>(
    field: Field<V>,
    message: String,
    value: V,
    then: String,
    other: String,
)
    ensures
        outcome(Ok::<Field<V>, String>(field)) == Ok::<FieldView<V>, Seq<char>>(field@),
        outcome(Err::<Field<V>, String>(message)) == Err::<FieldView<V>, Seq<char>>(message@),
        threshold(Ok::<V, String>(value)) == Ok::<V, Seq<char>>(value),
        threshold(Err::<V, String>(message)) == Err::<V, Seq<char>>(message@),
        Field::<V>::Sum@ == FieldView::<V>::Sum,
        Field::<V>::AllLoads@ == FieldView::<V>::AllLoads,
        (Field::IfGreater { value, then, otherwise: Some(other) })@ == (FieldView::IfGreater {
            value,
            then: then@,
            otherwise: Some(other@),
        }),
        (Field::IfGreater { value, then, otherwise: None })@ == (FieldView::IfGreater {
            value,
            then: then@,
            otherwise: None,
        }),
{
}

} // verus!
