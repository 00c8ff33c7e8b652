//! Command-line options: the grammar of the three options a run
//! understands, and the configuration that a list of arguments describes.
//!
//! Arguments are byte strings. Each one is an option name, an equals sign and
//! a value, with nothing before, between or after:
//!
//! * `--costs=` and a list of numerals separated by commas; the empty list is
//!   written as nothing at all,
//! * `--samples=` and a numeral,
//! * `--algorithm=` and `bcrypt` or `pbkdf2`.
//!
//! A numeral is one or more decimal digits whose value fits in 32 bits.
//! Arguments are applied from left to right to the standard configuration, so
//! of two arguments for the same option the later one counts.

use vstd::prelude::*;
use vstd::slice::slice_subrange;
use vstd::string::*;
use crate::config::{standard_config, Config, ConfigView};
use crate::error::BenchError;
use crate::primitive::Algorithm;
use crate::text::{decimal, digit};

verus! {

/// The bytes of a text that consists of ASCII characters.
pub open spec fn ascii(text: Seq<char>) -> Seq<u8> {
    Seq::new(text.len(), |i: int| text[i] as u8)
}

/// Whether `byte` is an ASCII decimal digit.
pub open spec fn is_digit(byte: u8) -> bool {
    '0' as u8 <= byte <= '9' as u8
}

/// Whether `text` is one or more decimal digits.
pub open spec fn is_numeral(text: Seq<u8>) -> bool {
    text.len() > 0 && forall|i: int| 0 <= i < text.len() ==> is_digit(#[trigger] text[i])
}

/// The value of a string of decimal digits, most significant digit first.
pub open spec fn numeral_value(text: Seq<u8>) -> nat
    decreases text.len(),
{
    if text.len() == 0 {
        0
    } else {
        numeral_value(text.drop_last()) * 10 + (text.last() - '0' as u8) as nat
    }
}

/// The number that `text` denotes, if it is a numeral that fits in 32 bits.
pub open spec fn number_of(text: Seq<u8>) -> Option<u32> {
    if is_numeral(text) && numeral_value(text) <= u32::MAX {
        Some(numeral_value(text) as u32)
    } else {
        None
    }
}

/// The fields of `text`: the stretches between its commas. A text with `n`
/// commas has `n + 1` fields, some of which may be empty.
pub open spec fn fields(text: Seq<u8>) -> Seq<Seq<u8>>
    decreases text.len(),
{
    if text.len() == 0 {
        seq![Seq::<u8>::empty()]
    } else if text.last() == ',' as u8 {
        fields(text.drop_last()).push(Seq::<u8>::empty())
    } else {
        let before = fields(text.drop_last());
        before.drop_last().push(before.last().push(text.last()))
    }
}

/// The text whose fields are `parts`: the parts in order, with a comma
/// between each two neighbours.
pub open spec fn joined(parts: Seq<Seq<u8>>) -> Seq<u8>
    decreases parts.len(),
{
    if parts.len() == 0 {
        Seq::<u8>::empty()
    } else if parts.len() == 1 {
        parts[0]
    } else {
        joined(parts.drop_last()).push(',' as u8) + parts.last()
    }
}

/// The list of costs that `text` denotes: nothing for the empty text,
/// otherwise the numbers of its fields, if every field is a number.
pub open spec fn costs_of(text: Seq<u8>) -> Option<Seq<u32>> {
    if text.len() == 0 {
        Some(Seq::<u32>::empty())
    } else if forall|j: int| 0 <= j < fields(text).len() ==> number_of(#[trigger] fields(text)[j]) is Some {
        Some(Seq::new(fields(text).len(), |j: int| number_of(fields(text)[j])->0))
    } else {
        None
    }
}

/// The algorithm that `text` names.
pub open spec fn algorithm_of(text: Seq<u8>) -> Option<Algorithm> {
    if text == ascii("bcrypt"@) {
        Some(Algorithm::Bcrypt)
    } else if text == ascii("pbkdf2"@) {
        Some(Algorithm::Pbkdf2)
    } else {
        None
    }
}

/// The configuration after one argument, or `None` if the argument is not an
/// option with a well-formed value.
pub open spec fn apply_arg(config: ConfigView, arg: Seq<u8>) -> Option<ConfigView> {
    if ascii("--costs="@).is_prefix_of(arg) {
        match costs_of(arg.skip(ascii("--costs="@).len() as int)) {
            Some(costs) => Some(ConfigView { costs, ..config }),
            None => None,
        }
    } else if ascii("--samples="@).is_prefix_of(arg) {
        match number_of(arg.skip(ascii("--samples="@).len() as int)) {
            Some(samples) => Some(ConfigView { samples, ..config }),
            None => None,
        }
    } else if ascii("--algorithm="@).is_prefix_of(arg) {
        match algorithm_of(arg.skip(ascii("--algorithm="@).len() as int)) {
            Some(algorithm) => Some(ConfigView { algorithm, ..config }),
            None => None,
        }
    } else {
        None
    }
}

/// The configuration after all of `args`, applied from left to right, or
/// `None` if any of them is unusable.
pub open spec fn apply_args(config: ConfigView, args: Seq<Seq<u8>>) -> Option<ConfigView>
    decreases args.len(),
{
    if args.len() == 0 {
        Some(config)
    } else {
        match apply_args(config, args.drop_last()) {
            Some(before) => apply_arg(before, args.last()),
            None => None,
        }
    }
}

/// The byte strings that a vector of arguments holds.
pub open spec fn arg_texts(args: Seq<Vec<u8>>) -> Seq<Seq<u8>> {
    Seq::new(args.len(), |i: int| args[i]@)
}

/// Reading more digits never makes a numeral smaller.
pub proof fn lemma_numeral_grows(text: Seq<u8>, n: int)
    requires
        0 <= n <= text.len(),
        forall|i: int| 0 <= i < text.len() ==> is_digit(#[trigger] text[i]),
    ensures
        numeral_value(text.take(n)) <= numeral_value(text),
    decreases text.len(),
{
    if n == text.len() {
        assert(text.take(n) =~= text);
    } else {
        lemma_numeral_grows(text.drop_last(), n);
        assert(text.drop_last().take(n) =~= text.take(n));
    }
}

/// The byte of a digit character is the byte of `0` plus the digit.
proof fn lemma_digit_byte(d: nat)
    requires
        d < 10,
    ensures
        digit(d) as u8 == '0' as u8 + d,
{
    assert(d == 0 || d == 1 || d == 2 || d == 3 || d == 4 || d == 5 || d == 6 || d == 7 || d == 8 || d == 9);
}

/// What the report writes, the options read: the decimal numeral of a number
/// is a numeral, and its value is that number.
pub proof fn lemma_decimal_reads_back(n: nat)
    ensures
        is_numeral(ascii(decimal(n))),
        numeral_value(ascii(decimal(n))) == n,
        n <= u32::MAX ==> number_of(ascii(decimal(n))) == Some(n as u32),
    decreases n,
{
    let text = ascii(decimal(n));
    lemma_digit_byte(n % 10);
    if n < 10 {
        assert(text =~= seq![digit(n) as u8]);
        assert(text.drop_last() =~= Seq::<u8>::empty());
        assert(numeral_value(text.drop_last()) == 0);
    } else {
        let front = ascii(decimal(n / 10));
        lemma_decimal_reads_back(n / 10);
        assert(text =~= front.push(digit(n % 10) as u8));
        assert(text.drop_last() =~= front);
        assert forall|i: int| 0 <= i < text.len() implies is_digit(#[trigger] text[i]) by {
            if i < front.len() {
                assert(text[i] == front[i]);
            }
        }
    }
}

/// Splitting loses nothing: the fields of a text, joined by commas, are the
/// text again.
pub proof fn lemma_fields_rejoin(text: Seq<u8>)
    ensures
        joined(fields(text)) == text,
    decreases text.len(),
{
    if text.len() == 0 {
        assert(joined(fields(text)) =~= text);
    } else {
        let front = fields(text.drop_last());
        lemma_fields_rejoin(text.drop_last());
        lemma_fields_hold_no_comma(text.drop_last());
        if text.last() == ',' as u8 {
            assert(fields(text).drop_last() =~= front);
            assert(joined(fields(text)) =~= text);
        } else if front.len() == 1 {
            assert(joined(fields(text)) =~= text);
        } else {
            assert(fields(text).drop_last() =~= front.drop_last());
            assert(joined(fields(text)) =~= joined(front).push(text.last()));
            assert(joined(fields(text)) =~= text);
        }
    }
}

/// Splitting splits everywhere: no field holds a comma, and there is one
/// field more than there are commas.
pub proof fn lemma_fields_hold_no_comma(text: Seq<u8>)
    ensures
        fields(text).len() >= 1,
        fields(text).len() == text.filter(|b: u8| b == ',' as u8).len() + 1,
        forall|j: int, k: int|
            0 <= j < fields(text).len() && 0 <= k < fields(text)[j].len() ==> #[trigger] fields(
                text,
            )[j][k] != ',' as u8,
    decreases text.len(),
{
    reveal(Seq::filter);
    if text.len() > 0 {
        lemma_fields_hold_no_comma(text.drop_last());
    }
}

fn bytes_of(text: &'static str) -> (bytes: &'static [u8])
    requires
        is_ascii(text),
    ensures
        bytes@ == ascii(text@),
{
    broadcast use is_ascii_spec_bytes;

    text.as_bytes()
}

fn strip_prefix<'a>(text: &'a [u8], prefix: &[u8]) -> (rest: Option<&'a [u8]>)
    ensures
        prefix@.is_prefix_of(text@) ==> rest is Some && rest->0@ == text@.skip(prefix@.len() as int),
        !prefix@.is_prefix_of(text@) ==> rest is None,
{
    if prefix.len() > text.len() {
        return None;
    }
    let mut i: usize = 0;
    while i < prefix.len()
        invariant
            i <= prefix@.len() <= text@.len(),
            forall|k: int| 0 <= k < i ==> text@[k] == prefix@[k],
        decreases prefix@.len() - i,
    {
        if text[i] != prefix[i] {
            return None;
        }
        i = i + 1;
    }
    Some(slice_subrange(text, prefix.len(), text.len()))
}

/// Reads a numeral.
///
/// The text must be one or more decimal digits and denote a number that fits
/// in 32 bits. Signs, spaces and the empty text are rejected; leading zeros
/// are not.
pub fn parse_number(text: &[u8]) -> (r: Option<u32>)
    ensures
        r == number_of(text@),
{
    let n: usize = text.len();
    if n == 0 {
        return None;
    }
    let mut value: u32 = 0;
    let mut i: usize = 0;
    while i < n
        invariant
            n == text@.len(),
            i <= n,
            forall|k: int| 0 <= k < i ==> is_digit(#[trigger] text@[k]),
            value == numeral_value(text@.take(i as int)),
        decreases n - i,
    {
        let byte = text[i];
        if byte < '0' as u8 || byte > '9' as u8 {
            return None;
        }
        proof {
            assert(text@.take(i + 1).drop_last() =~= text@.take(i as int));
            if is_numeral(text@) {
                lemma_numeral_grows(text@, i + 1);
            }
        }
        let digit: u32 = (byte - '0' as u8) as u32;
        value = match value.checked_mul(10) {
            Some(tens) => match tens.checked_add(digit) {
                Some(sum) => sum,
                None => {
                    return None;
                },
            },
            None => {
                return None;
            },
        };
        i = i + 1;
    }
    proof {
        assert(text@.take(n as int) =~= text@);
    }
    Some(value)
}

/// Reads a list of costs: numerals separated by commas, or nothing at all
/// for the empty list.
pub fn parse_costs(text: &[u8]) -> (r: Option<Vec<u32>>)
    ensures
        costs_of(text@) is Some <==> r is Some,
        r matches Some(costs) ==> costs@ == costs_of(text@)->0,
{
    let n: usize = text.len();
    let mut costs: Vec<u32> = Vec::new();
    if n == 0 {
        return Some(costs);
    }
    let mut start: usize = 0;
    let mut i: usize = 0;
    while i < n
        invariant
            n == text@.len(),
            start <= i <= n,
            fields(text@.take(i as int)).len() == costs@.len() + 1,
            fields(text@.take(i as int)).last() == text@.subrange(start as int, i as int),
            forall|j: int|
                0 <= j < costs@.len() ==> number_of(#[trigger] fields(text@.take(i as int))[j]) == Some(
                    costs@[j],
                ),
            forall|j: int|
                0 <= j < costs@.len() ==> #[trigger] fields(text@.take(i as int))[j] == fields(text@)[j],
            fields(text@.take(i as int)).len() <= fields(text@).len(),
        decreases n - i,
    {
        proof {
            assert(text@.take(i + 1).drop_last() =~= text@.take(i as int));
            lemma_fields_settle(text@, i as int);
            lemma_fields_settle(text@, i + 1);
        }
        if text[i] == ',' as u8 {
            let field = slice_subrange(text, start, i);
            let ghost closed = fields(text@.take(i + 1)).len() - 2;
            assert(fields(text@.take(i + 1))[closed] == field@);
            match parse_number(field) {
                Some(cost) => {
                    costs.push(cost);
                },
                None => {
                    return None;
                },
            }
            start = i + 1;
        }
        i = i + 1;
    }
    proof {
        assert(text@.take(n as int) =~= text@);
    }
    let field = slice_subrange(text, start, n);
    match parse_number(field) {
        Some(cost) => {
            costs.push(cost);
        },
        None => {
            return None;
        },
    }
    Some(costs)
}

/// Once a comma has closed a field, reading on does not change it: the
/// fields of a prefix, all but its last, are fields of the whole text at the
/// same places.
pub proof fn lemma_fields_settle(text: Seq<u8>, n: int)
    requires
        0 <= n <= text.len(),
    ensures
        fields(text.take(n)).len() <= fields(text).len(),
        forall|j: int|
            0 <= j < fields(text.take(n)).len() - 1 ==> #[trigger] fields(text.take(n))[j] == fields(
                text,
            )[j],
    decreases text.len(),
{
    if n == text.len() {
        assert(text.take(n) =~= text);
    } else {
        lemma_fields_settle(text.drop_last(), n);
        assert(text.drop_last().take(n) =~= text.take(n));
        lemma_fields_hold_no_comma(text.drop_last());
    }
}

fn bytes_equal(a: &[u8], b: &[u8]) -> (r: bool)
    ensures
        r == (a@ == b@),
{
    if a.len() != b.len() {
        return false;
    }
    let mut i: usize = 0;
    while i < a.len()
        invariant
            i <= a@.len(),
            a@.len() == b@.len(),
            forall|k: int| 0 <= k < i ==> a@[k] == b@[k],
        decreases a@.len() - i,
    {
        if a[i] != b[i] {
            return false;
        }
        i = i + 1;
    }
    assert(a@ =~= b@);
    true
}

/// Reads the name of an algorithm: `bcrypt` or `pbkdf2`, in lower case.
pub fn parse_algorithm(text: &[u8]) -> (r: Option<Algorithm>)
    ensures
        r == algorithm_of(text@),
{
    proof {
        reveal_strlit("bcrypt");
        reveal_strlit("pbkdf2");
    }
    if bytes_equal(text, bytes_of("bcrypt")) {
        Some(Algorithm::Bcrypt)
    } else if bytes_equal(text, bytes_of("pbkdf2")) {
        Some(Algorithm::Pbkdf2)
    } else {
        None
    }
}

/// Applies one command-line argument to a configuration.
pub fn parse_arg(config: Config, arg: &[u8]) -> (r: Option<Config>)
    ensures
        apply_arg(config@, arg@) is Some <==> r is Some,
        r matches Some(next) ==> Some(next@) == apply_arg(config@, arg@),
{
    proof {
        reveal_strlit("--costs=");
        reveal_strlit("--samples=");
        reveal_strlit("--algorithm=");
    }
    let mut config = config;
    if let Some(value) = strip_prefix(arg, bytes_of("--costs=")) {
        match parse_costs(value) {
            Some(costs) => {
                config.costs = costs;
            },
            None => {
                return None;
            },
        }
    } else if let Some(value) = strip_prefix(arg, bytes_of("--samples=")) {
        match parse_number(value) {
            Some(samples) => {
                config.samples = samples;
            },
            None => {
                return None;
            },
        }
    } else if let Some(value) = strip_prefix(arg, bytes_of("--algorithm=")) {
        match parse_algorithm(value) {
            Some(algorithm) => {
                config.algorithm = algorithm;
            },
            None => {
                return None;
            },
        }
    } else {
        return None;
    }
    Some(config)
}

/// Builds the configuration that a list of command-line arguments describes.
///
/// The arguments are applied from left to right to the standard
/// configuration. An argument that is not one of the three options, or whose
/// value is malformed, makes the whole list unusable. Whether the resulting
/// configuration is usable is a separate question, which
/// [`Config::validate`] answers.
pub fn parse_args(args: &Vec<Vec<u8>>) -> (r: Result<Config, BenchError>)
    ensures
        apply_args(standard_config(), arg_texts(args@)) is Some <==> r is Ok,
        r matches Ok(config) ==> Some(config@) == apply_args(standard_config(), arg_texts(args@)),
        r is Err ==> r == Err::<Config, BenchError>(BenchError::InvalidConfiguration),
{
    let mut config = Config::default();
    let mut i: usize = 0;
    while i < args.len()
        invariant
            i <= args@.len(),
            Some(config@) == apply_args(standard_config(), arg_texts(args@).take(i as int)),
        decreases args@.len() - i,
    {
        proof {
            assert(arg_texts(args@).take(i + 1).drop_last() =~= arg_texts(args@).take(i as int));
        }
        match parse_arg(config, args[i].as_slice()) {
            Some(next) => {
                config = next;
            },
            None => {
                proof {
                    lemma_unusable_prefix(standard_config(), arg_texts(args@), i + 1);
                }
                return Err(BenchError::InvalidConfiguration);
            },
        }
        i = i + 1;
    }
    proof {
        assert(arg_texts(args@).take(i as int) =~= arg_texts(args@));
    }
    Ok(config)
}

/// One unusable argument spoils the list, whatever follows it.
pub proof fn lemma_unusable_prefix(config: ConfigView, args: Seq<Seq<u8>>, n: int)
    requires
        0 <= n <= args.len(),
        apply_args(config, args.take(n)) is None,
    ensures
        apply_args(config, args) is None,
    decreases args.len(),
{
    if n == args.len() {
        assert(args.take(n) =~= args);
    } else {
        assert(args.drop_last().take(n) =~= args.take(n));
        lemma_unusable_prefix(config, args.drop_last(), n);
    }
}

} // verus!
