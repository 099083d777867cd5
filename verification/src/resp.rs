//! Framing of RESP commands, as a pipelining server needs it: how many complete
//! commands a read buffer holds, how many bytes they take, and the replies to
//! them for a server that answers `PONG` to anything.
//!
//! A command is either inline, one line, or an array: a header line with the
//! number of arguments, then for each argument a header line with its length,
//! the argument, and a terminator. A header line is a one-byte mark and a
//! decimal. Lines end with `\r\n`. The verb is not looked at.

use vstd::prelude::*;
use vstd::slice::slice_subrange;

verus! {

/// How much of a read buffer formed complete commands.
#[derive(Debug, Clone, Copy, PartialEq, Eq)]
pub struct Parsed {
    pub commands_count: usize,
    pub consumed_count: usize,
}

const CARRIAGE_RETURN: u8 = 13;

const LINE_FEED: u8 = 10;

const ARRAY_MARK: u8 = 42;

const DIGIT_ZERO: u8 = 48;

/// A line terminator begins at `at`.
pub open spec fn terminator_at(bytes: Seq<u8>, at: int) -> bool {
    &&& 0 <= at < bytes.len() - 1
    &&& bytes[at] == 13
    &&& bytes[at + 1] == 10
}

/// The first `length` bytes are a line: they end with a terminator and hold no
/// earlier one.
pub open spec fn is_line(bytes: Seq<u8>, length: nat) -> bool {
    &&& length >= 2
    &&& terminator_at(bytes, length - 2)
    &&& forall|at: int| 0 <= at < length - 2 ==> !#[trigger] terminator_at(bytes, at)
}

/// The length of the line at the front, terminator included, if it is complete.
pub open spec fn line_of(bytes: Seq<u8>) -> Option<nat> {
    if exists|length: nat| is_line(bytes, length) {
        Some(choose|length: nat| is_line(bytes, length))
    } else {
        None
    }
}

/// Every byte is a decimal digit.
pub open spec fn all_digits(bytes: Seq<u8>) -> bool {
    forall|i: int| 0 <= i < bytes.len() ==> 48 <= #[trigger] bytes[i] <= 57
}

/// The value of a string of decimal digits.
pub open spec fn decimal(digits: Seq<u8>) -> nat
    decreases digits.len(),
{
    if digits.len() == 0 {
        0
    } else {
        decimal(digits.drop_last()) * 10 + (digits.last() - 48) as nat
    }
}

/// The number in a header line, without its mark and with its terminator: at
/// least one digit, nothing but digits, and a value that fits a `usize`.
pub open spec fn number_of(line: Seq<u8>) -> Option<nat> {
    let digits = line.take(line.len() - 2);
    if line.len() >= 3 && terminator_at(line, line.len() - 2) && all_digits(digits) && decimal(
        digits,
    ) <= usize::MAX {
        Some(decimal(digits))
    } else {
        None
    }
}

/// Where `count` arguments that begin at `at` end, if they are complete.
pub open spec fn arguments_end(bytes: Seq<u8>, at: nat, count: nat) -> Option<nat>
    decreases count,
{
    if count == 0 {
        Some(at)
    } else {
        match line_of(bytes.skip(at as int)) {
            None => None,
            Some(header) => match number_of(bytes.subrange(at as int + 1, (at + header) as int)) {
                None => None,
                Some(length) => if at + header + length + 2 > bytes.len() {
                    None
                } else {
                    arguments_end(bytes, at + header + length + 2, (count - 1) as nat)
                },
            },
        }
    }
}

/// The length of the command at the front, if it is complete.
pub open spec fn command_of(bytes: Seq<u8>) -> Option<nat> {
    if bytes.len() == 0 {
        None
    } else if bytes[0] != 42 {
        line_of(bytes)
    } else {
        match line_of(bytes) {
            None => None,
            Some(header) => match number_of(bytes.subrange(1, header as int)) {
                None => None,
                Some(count) => arguments_end(bytes, header, count),
            },
        }
    }
}

/// How many complete commands follow one another at the front, and how many
/// bytes they take.
pub open spec fn commands_of(bytes: Seq<u8>) -> (nat, nat)
    decreases bytes.len(),
{
    match command_of(bytes) {
        Some(length) => if 0 < length <= bytes.len() {
            let rest = commands_of(bytes.skip(length as int));
            (rest.0 + 1, rest.1 + length)
        } else {
            (0, 0)
        },
        None => (0, 0),
    }
}

proof fn lemma_line(bytes: Seq<u8>, length: nat)
    requires
        is_line(bytes, length),
    ensures
        line_of(bytes) == Some(length),
        2 <= length <= bytes.len(),
{
    let chosen = choose|length: nat| is_line(bytes, length);
    assert(is_line(bytes, chosen));
    if chosen < length {
        assert(!terminator_at(bytes, chosen - 2));
    }
    if length < chosen {
        assert(!terminator_at(bytes, length - 2));
    }
}

proof fn lemma_line_of(bytes: Seq<u8>)
    ensures
        line_of(bytes) matches Some(length) ==> is_line(bytes, length) && 2 <= length
            <= bytes.len(),
{
}

/// Length of the `\r\n`-terminated line at the front of `bytes`, terminator
/// included.
pub fn line_length(bytes: &[u8]) -> (length: Option<usize>)
    ensures
        length is Some <==> line_of(bytes@) is Some,
        length matches Some(found) ==> line_of(bytes@) == Some(found as nat) && 2 <= found
            <= bytes.len(),
{
    let mut at: usize = 0;
    while at < bytes.len() && bytes.len() - at >= 2
        invariant
            at <= bytes.len(),
            forall|i: int| 0 <= i < at ==> !#[trigger] terminator_at(bytes@, i),
        decreases bytes.len() - at,
    {
        if bytes[at] == CARRIAGE_RETURN && bytes[at + 1] == LINE_FEED {
            proof {
                assert(terminator_at(bytes@, at as int));
                lemma_line(bytes@, (at + 2) as nat);
            }
            return Some(at + 2);
        }
        assert(!terminator_at(bytes@, at as int));
        at = at + 1;
    }
    proof {
        lemma_line_of(bytes@);
        assert forall|length: nat| !is_line(bytes@, length) by {
            if is_line(bytes@, length) {
                assert(!terminator_at(bytes@, length - 2));
            }
        }
    }
    None
}

proof fn lemma_decimal_grows(digits: Seq<u8>, taken: int)
    requires
        0 <= taken <= digits.len(),
        all_digits(digits),
    ensures
        decimal(digits.take(taken)) <= decimal(digits),
    decreases digits.len(),
{
    if taken == digits.len() {
        assert(digits.take(taken) =~= digits);
    } else {
        let fewer = digits.drop_last();
        assert(fewer.take(taken) =~= digits.take(taken));
        lemma_decimal_grows(fewer, taken);
    }
}

/// Parse the decimal in a RESP header line, terminator included.
pub fn number(line: &[u8]) -> (value: Option<usize>)
    ensures
        value is Some <==> number_of(line@) is Some,
        value matches Some(found) ==> number_of(line@) == Some(found as nat),
{
    if line.len() < 3 {
        return None;
    }
    let length: usize = line.len() - 2;
    if line[length] != CARRIAGE_RETURN || line[length + 1] != LINE_FEED {
        return None;
    }
    let ghost digits = line@.take(length as int);
    let mut value: usize = 0;
    let mut at: usize = 0;
    while at < length
        invariant
            at <= length,
            length == line.len() - 2,
            digits == line@.take(length as int),
            all_digits(digits.take(at as int)),
            value == decimal(digits.take(at as int)),
        decreases length - at,
    {
        let byte: u8 = line[at];
        assert(digits[at as int] == byte);
        if byte < DIGIT_ZERO || byte - DIGIT_ZERO > 9 {
            return None;
        }
        let digit: usize = (byte - DIGIT_ZERO) as usize;
        proof {
            let more = digits.take(at + 1);
            assert(more.drop_last() =~= digits.take(at as int));
            assert(more.last() == byte);
            assert forall|i: int| 0 <= i < more.len() implies 48 <= #[trigger] more[i] <= 57 by {
                if i < at {
                    assert(more[i] == digits.take(at as int)[i]);
                }
            }
            if all_digits(digits) {
                lemma_decimal_grows(digits, at + 1);
            }
        }
        value = match value.checked_mul(10) {
            Some(shifted) => match shifted.checked_add(digit) {
                Some(sum) => sum,
                None => {
                    return None;
                },
            },
            None => {
                return None;
            },
        };
        at = at + 1;
    }
    assert(digits.take(at as int) =~= digits);
    Some(value)
}

/// Length of the complete command at the front of `bytes`, or `None` when it is
/// still partial.
pub fn command_length(bytes: &[u8]) -> (length: Option<usize>)
    ensures
        length is Some <==> command_of(bytes@) is Some,
        length matches Some(found) ==> command_of(bytes@) == Some(found as nat) && 2 <= found
            <= bytes.len(),
{
    if bytes.len() == 0 {
        return None;
    }
    if bytes[0] != ARRAY_MARK {
        return line_length(bytes);
    }
    let mut at: usize = match line_length(bytes) {
        Some(header) => header,
        None => {
            return None;
        },
    };
    let count: usize = match number(slice_subrange(bytes, 1, at)) {
        Some(count) => count,
        None => {
            return None;
        },
    };
    let ghost end = arguments_end(bytes@, at as nat, count as nat);
    let mut taken: usize = 0;
    while taken < count
        invariant
            taken <= count,
            2 <= at <= bytes.len(),
            command_of(bytes@) == end,
            end == arguments_end(bytes@, at as nat, (count - taken) as nat),
        decreases count - taken,
    {
        let rest = slice_subrange(bytes, at, bytes.len());
        assert(rest@ =~= bytes@.skip(at as int));
        let header: usize = match line_length(rest) {
            Some(header) => header,
            None => {
                return None;
            },
        };
        let length: usize = match number(slice_subrange(bytes, at + 1, at + header)) {
            Some(length) => length,
            None => {
                return None;
            },
        };
        // The argument and its terminator must fit in what is left.
        let left: usize = bytes.len() - at - header;
        if left < 2 || length > left - 2 {
            return None;
        }
        at = at + header + length + 2;
        taken = taken + 1;
    }
    Some(at)
}

/// Count complete commands, inline or RESP array, without inspecting the verb.
pub fn parse(buffer: &[u8]) -> (parsed: Parsed)
    ensures
        (parsed.commands_count as nat, parsed.consumed_count as nat) == commands_of(buffer@),
        parsed.consumed_count <= buffer.len(),
{
    let mut parsed = Parsed { commands_count: 0, consumed_count: 0 };
    assert(buffer@.skip(0) =~= buffer@);
    loop
        invariant
            parsed.consumed_count <= buffer.len(),
            parsed.commands_count <= parsed.consumed_count,
            ({
                let rest = commands_of(buffer@.skip(parsed.consumed_count as int));
                commands_of(buffer@) == (
                    (parsed.commands_count + rest.0) as nat,
                    (parsed.consumed_count + rest.1) as nat,
                )
            }),
        decreases buffer.len() - parsed.consumed_count,
    {
        let rest = slice_subrange(buffer, parsed.consumed_count, buffer.len());
        assert(rest@ =~= buffer@.skip(parsed.consumed_count as int));
        match command_length(rest) {
            Some(length) => {
                assert(rest@.skip(length as int) =~= buffer@.skip(parsed.consumed_count + length));
                parsed.commands_count = parsed.commands_count + 1;
                parsed.consumed_count = parsed.consumed_count + length;
            },
            None => {
                return parsed;
            },
        }
    }
}

/// How many replies can be asked for: that many fit a buffer.
pub const REPLIES_MAX: usize = usize::MAX / 14;

/// The reply to one command: `+PONG` and a terminator.
pub open spec fn pong() -> Seq<u8> {
    seq![43u8, 80u8, 79u8, 78u8, 71u8, 13u8, 10u8]
}

/// The replies to `commands_count` commands, one after another.
pub open spec fn pongs(commands_count: nat) -> Seq<u8>
    decreases commands_count,
{
    if commands_count == 0 {
        seq![]
    } else {
        pongs((commands_count - 1) as nat) + pong()
    }
}

/// One reply for each command, to be answered in one write.
pub fn replies(commands_count: usize) -> (bytes: Vec<u8>)
    requires
        commands_count <= REPLIES_MAX,
    ensures
        bytes@ == pongs(commands_count as nat),
        bytes.len() == 7 * commands_count,
{
    let mut bytes: Vec<u8> = Vec::with_capacity(7 * commands_count);
    let mut made: usize = 0;
    while made < commands_count
        invariant
            made <= commands_count,
            bytes@ == pongs(made as nat),
            bytes.len() == 7 * made,
        decreases commands_count - made,
    {
        bytes.push(43);
        bytes.push(80);
        bytes.push(79);
        bytes.push(78);
        bytes.push(71);
        bytes.push(CARRIAGE_RETURN);
        bytes.push(LINE_FEED);
        assert(bytes@ =~= pongs(made as nat) + pong());
        made = made + 1;
    }
    bytes
}

proof fn lemma_line_stays(bytes: Seq<u8>, more: Seq<u8>)
    requires
        line_of(bytes) is Some,
    ensures
        line_of(bytes + more) == line_of(bytes),
{
    let length = line_of(bytes)->Some_0;
    let longer = bytes + more;
    assert(is_line(bytes, length));
    assert forall|at: int| 0 <= at < length - 2 implies !#[trigger] terminator_at(longer, at) by {
        assert(!terminator_at(bytes, at));
    }
    assert(is_line(longer, length));
    lemma_line(longer, length);
}

proof fn lemma_arguments_stay(bytes: Seq<u8>, more: Seq<u8>, at: nat, count: nat)
    requires
        at <= bytes.len(),
        arguments_end(bytes, at, count) is Some,
    ensures
        arguments_end(bytes + more, at, count) == arguments_end(bytes, at, count),
        at <= arguments_end(bytes, at, count)->Some_0 <= bytes.len(),
    decreases count,
{
    if count > 0 {
        let longer = bytes + more;
        let rest = bytes.skip(at as int);
        assert(longer.skip(at as int) =~= rest + more);
        lemma_line_stays(rest, more);
        let header = line_of(rest)->Some_0;
        assert(is_line(rest, header));
        assert(longer.subrange(at as int + 1, (at + header) as int) =~= bytes.subrange(
            at as int + 1,
            (at + header) as int,
        ));
        let length = number_of(bytes.subrange(at as int + 1, (at + header) as int))->Some_0;
        lemma_arguments_stay(bytes, more, at + header + length + 2, (count - 1) as nat);
    }
}

/// A command that is complete stays what it is when more bytes arrive, and
/// lies within the bytes that are there.
pub proof fn law_a_complete_command_stays_complete(bytes: Seq<u8>, more: Seq<u8>)
    requires
        command_of(bytes) is Some,
    ensures
        command_of(bytes + more) == command_of(bytes),
        2 <= command_of(bytes)->Some_0 <= bytes.len(),
{
    let longer = bytes + more;
    assert(longer[0] == bytes[0]);
    lemma_line_stays(bytes, more);
    let header = line_of(bytes)->Some_0;
    assert(is_line(bytes, header));
    if bytes[0] == 42 {
        assert(longer.subrange(1, header as int) =~= bytes.subrange(1, header as int));
        let count = number_of(bytes.subrange(1, header as int))->Some_0;
        lemma_arguments_stay(bytes, more, header, count);
    }
}

/// A command that is cut short is not taken for a complete one, however little
/// is missing.
pub proof fn law_a_truncated_command_is_partial(bytes: Seq<u8>, kept: nat)
    requires
        command_of(bytes) matches Some(length) && kept < length,
    ensures
        command_of(bytes.take(kept as int)) is None,
        commands_of(bytes.take(kept as int)) == (0nat, 0nat),
{
    law_a_complete_command_stays_complete(bytes, seq![]);
    let part = bytes.take(kept as int);
    if command_of(part) is Some {
        law_a_complete_command_stays_complete(part, bytes.skip(kept as int));
        assert(part + bytes.skip(kept as int) =~= bytes);
    }
}

/// Pipelined commands are all counted: a complete command adds one to whatever
/// follows it, and its own length.
pub proof fn law_pipelined_commands_are_counted(command: Seq<u8>, rest: Seq<u8>)
    requires
        command_of(command) == Some(command.len()),
    ensures
        commands_of(command + rest) == (commands_of(rest).0 + 1, commands_of(rest).1
            + command.len()),
{
    law_a_complete_command_stays_complete(command, rest);
    assert((command + rest).skip(command.len() as int) =~= rest);
}

/// A buffer may be read in any pieces: the commands found in what has arrived
/// are found again when more arrives, and what follows them is framed as if it
/// stood alone.
#[verifier::rlimit(60)]
pub proof fn law_reading_on_continues(bytes: Seq<u8>, more: Seq<u8>)
    ensures
        ({
            let (commands, consumed) = commands_of(bytes);
            let rest = commands_of((bytes + more).skip(consumed as int));
            &&& consumed <= bytes.len()
            &&& commands_of(bytes + more) == (commands + rest.0, consumed + rest.1)
        }),
    decreases bytes.len(),
{
    let longer = bytes + more;
    match command_of(bytes) {
        Some(length) => {
            let tail = bytes.skip(length as int);
            let found = commands_of(tail);
            let rest = commands_of((tail + more).skip(found.1 as int));
            assert(0 < length <= bytes.len() && command_of(longer) == Some(length)) by {
                law_a_complete_command_stays_complete(bytes, more);
            }
            law_reading_on_continues(tail, more);
            assert(commands_of(bytes) == (found.0 + 1, found.1 + length));
            assert(commands_of(longer) == (found.0 + rest.0 + 1, found.1 + rest.1 + length)) by {
                assert(longer.skip(length as int) =~= tail + more);
            }
            assert((tail + more).skip(found.1 as int) =~= longer.skip((found.1 + length) as int));
        },
        None => {
            assert(longer.skip(0) =~= longer);
        },
    }
}

/// The decimal digits of a number in full, the most significant one first.
pub open spec fn digits_of(value: nat) -> Seq<u8>
    decreases value,
{
    if value < 10 {
        seq![(48 + value) as u8]
    } else {
        digits_of(value / 10).push((48 + value % 10) as u8)
    }
}

/// `\r\n`.
pub open spec fn crlf() -> Seq<u8> {
    seq![13u8, 10u8]
}

/// A number as a client may write it: any zeros in front, then its digits in
/// full.
pub open spec fn numeral(zeros: nat, value: nat) -> Seq<u8> {
    Seq::new(zeros, |i: int| 48u8) + digits_of(value)
}

/// A header line as a client writes it: a mark, a number, and a terminator.
pub open spec fn header(mark: u8, zeros: nat, value: nat) -> Seq<u8> {
    seq![mark] + numeral(zeros, value) + crlf()
}

/// An argument as a client writes it.
pub struct Argument {
    /// The mark of its header line, which is not looked at: `$`.
    pub mark: u8,
    /// How many zeros stand in front of its length: none.
    pub zeros: nat,
    /// The argument itself, whatever it holds.
    pub content: Seq<u8>,
    /// The two bytes after it, which are not looked at: `\r\n`.
    pub end: Seq<u8>,
}

impl Argument {
    /// The bytes that are written.
    pub open spec fn written(self) -> Seq<u8> {
        header(self.mark, self.zeros, self.content.len()) + self.content + self.end
    }

    /// Its length can be counted, and two bytes follow it.
    pub open spec fn wf(self) -> bool {
        &&& self.content.len() <= usize::MAX
        &&& self.end.len() == 2
    }
}

/// Arguments one after another.
pub open spec fn encoded_arguments(arguments: Seq<Argument>) -> Seq<u8>
    decreases arguments.len(),
{
    if arguments.len() == 0 {
        seq![]
    } else {
        arguments[0].written() + encoded_arguments(arguments.drop_first())
    }
}

/// A command as a client writes it: `*` and the number of arguments, with any
/// zeros in front, then the arguments.
pub open spec fn encoded(zeros: nat, arguments: Seq<Argument>) -> Seq<u8> {
    header(42, zeros, arguments.len()) + encoded_arguments(arguments)
}

/// The arguments and the length of each of them can be counted.
pub open spec fn can_be_counted(arguments: Seq<Argument>) -> bool {
    &&& arguments.len() <= usize::MAX
    &&& forall|i: int| 0 <= i < arguments.len() ==> (#[trigger] arguments[i]).wf()
}

proof fn lemma_digits_of(value: nat)
    ensures
        digits_of(value).len() >= 1,
        all_digits(digits_of(value)),
        decimal(digits_of(value)) == value,
    decreases value,
{
    if value < 10 {
        let digits = digits_of(value);
        assert(digits.drop_last() =~= seq![]);
        assert(decimal(digits.drop_last()) == 0);
    } else {
        lemma_digits_of(value / 10);
        let fewer = digits_of(value / 10);
        let digits = digits_of(value);
        assert(digits.drop_last() =~= fewer);
        assert forall|i: int| 0 <= i < digits.len() implies 48 <= #[trigger] digits[i] <= 57 by {
            if i < fewer.len() {
                assert(digits[i] == fewer[i]);
            }
        }
    }
}

proof fn lemma_numeral(zeros: nat, value: nat)
    ensures
        numeral(zeros, value).len() >= 1,
        all_digits(numeral(zeros, value)),
        decimal(numeral(zeros, value)) == value,
    decreases zeros,
{
    lemma_digits_of(value);
    let digits = numeral(zeros, value);
    if zeros == 0 {
        assert(digits =~= digits_of(value));
    } else {
        let fewer = numeral((zeros - 1) as nat, value);
        lemma_numeral((zeros - 1) as nat, value);
        assert(digits =~= seq![48u8] + fewer);
        lemma_zero_in_front(fewer);
        assert forall|i: int| 0 <= i < digits.len() implies 48 <= #[trigger] digits[i] <= 57 by {
            if i > 0 {
                assert(digits[i] == fewer[i - 1]);
            }
        }
    }
}

proof fn lemma_zero_in_front(digits: Seq<u8>)
    ensures
        decimal(seq![48u8] + digits) == decimal(digits),
    decreases digits.len(),
{
    let padded = seq![48u8] + digits;
    if digits.len() == 0 {
        assert(padded.drop_last() =~= seq![]);
        assert(decimal(padded.drop_last()) == 0);
    } else {
        assert(padded.drop_last() =~= seq![48u8] + digits.drop_last());
        lemma_zero_in_front(digits.drop_last());
    }
}

proof fn lemma_header(mark: u8, zeros: nat, value: nat, rest: Seq<u8>)
    ensures
        line_of(header(mark, zeros, value) + rest) == Some(header(mark, zeros, value).len()),
        number_of(
            header(mark, zeros, value).subrange(1, header(mark, zeros, value).len() as int),
        ) == if value <= usize::MAX {
            Some(value)
        } else {
            None
        },
        header(mark, zeros, value).len() == numeral(zeros, value).len() + 3,
{
    lemma_numeral(zeros, value);
    let digits = numeral(zeros, value);
    let line = header(mark, zeros, value);
    let bytes = line + rest;
    assert forall|at: int| 0 <= at < line.len() - 2 implies !#[trigger] terminator_at(
        bytes,
        at,
    ) by {
        if at > 0 {
            assert(bytes[at] == digits[at - 1]);
        } else {
            assert(bytes[at + 1] == digits[at]);
        }
    }
    assert(terminator_at(bytes, line.len() - 2));
    assert(is_line(bytes, line.len()));
    lemma_line(bytes, line.len());
    let tail = line.subrange(1, line.len() as int);
    assert(tail.take(tail.len() - 2) =~= digits);
    assert(terminator_at(tail, tail.len() - 2));
}

/// Arguments that a client wrote are gone through one by one, up to where they
/// end.
proof fn lemma_arguments_are_passed(
    before: Seq<u8>,
    arguments: Seq<Argument>,
    rest: Seq<u8>,
    more: nat,
)
    requires
        can_be_counted(arguments),
    ensures
        arguments_end(
            before + encoded_arguments(arguments) + rest,
            before.len(),
            arguments.len() + more,
        ) == arguments_end(
            before + encoded_arguments(arguments) + rest,
            before.len() + encoded_arguments(arguments).len(),
            more,
        ),
    decreases arguments.len(),
{
    if arguments.len() > 0 {
        let first = arguments[0];
        let others = arguments.drop_first();
        let length = first.content.len();
        let line = header(first.mark, first.zeros, length);
        let passed = before + first.written();
        let bytes = before + encoded_arguments(arguments) + rest;
        let at = before.len();
        let after = first.content + first.end + encoded_arguments(others) + rest;
        assert(first.wf());
        assert(bytes =~= passed + encoded_arguments(others) + rest);
        assert(bytes.skip(at as int) =~= line + after);
        lemma_header(first.mark, first.zeros, length, after);
        assert(bytes.subrange(at as int + 1, (at + line.len()) as int) =~= line.subrange(
            1,
            line.len() as int,
        ));
        assert(passed.len() == at + line.len() + length + 2);
        assert forall|i: int| 0 <= i < others.len() implies (#[trigger] others[i]).wf() by {
            assert(others[i] == arguments[i + 1]);
        }
        lemma_arguments_are_passed(passed, others, rest, more);
    } else {
        assert(before + encoded_arguments(arguments) + rest =~= before + rest);
    }
}

/// Framing undoes writing: whatever arguments a client writes as a command, and
/// whatever follows it in the buffer, what is read is exactly that one command,
/// as long as it was written, and then what follows.
pub proof fn law_a_written_command_is_read_as_one(
    zeros: nat,
    arguments: Seq<Argument>,
    rest: Seq<u8>,
)
    requires
        can_be_counted(arguments),
    ensures
        command_of(encoded(zeros, arguments) + rest) == Some(encoded(zeros, arguments).len()),
        commands_of(encoded(zeros, arguments) + rest) == (
            commands_of(rest).0 + 1,
            commands_of(rest).1 + encoded(zeros, arguments).len(),
        ),
{
    let line = header(42, zeros, arguments.len());
    let bytes = encoded(zeros, arguments) + rest;
    lemma_header(42, zeros, arguments.len(), encoded_arguments(arguments) + rest);
    assert(bytes =~= line + (encoded_arguments(arguments) + rest));
    assert(bytes =~= line + encoded_arguments(arguments) + rest);
    assert(bytes.subrange(1, line.len() as int) =~= line.subrange(1, line.len() as int));
    assert(bytes[0] == 42);
    lemma_arguments_are_passed(line, arguments, rest, 0);
    assert(bytes.skip(encoded(zeros, arguments).len() as int) =~= rest);
}

/// Commands written one after another.
pub open spec fn pipeline(commands: Seq<Seq<Argument>>) -> Seq<u8>
    decreases commands.len(),
{
    if commands.len() == 0 {
        seq![]
    } else {
        encoded(0, commands[0]) + pipeline(commands.drop_first())
    }
}

/// Of commands that a client writes one after another, each is counted once and
/// every byte of them is taken, and of one that is cut short after them nothing.
#[verifier::rlimit(60)]
pub proof fn law_a_written_pipeline_is_counted(commands: Seq<Seq<Argument>>, partial: Seq<u8>)
    requires
        forall|i: int| 0 <= i < commands.len() ==> can_be_counted(#[trigger] commands[i]),
        command_of(partial) is None,
    ensures
        commands_of(pipeline(commands) + partial) == (commands.len(), pipeline(commands).len()),
    decreases commands.len(),
{
    if commands.len() > 0 {
        let others = commands.drop_first();
        assert forall|i: int| 0 <= i < others.len() implies can_be_counted(
            #[trigger] others[i],
        ) by {
            assert(others[i] == commands[i + 1]);
        }
        law_a_written_pipeline_is_counted(others, partial);
        law_a_written_command_is_read_as_one(0, commands[0], pipeline(others) + partial);
        assert(pipeline(commands) + partial =~= encoded(0, commands[0]) + (pipeline(others)
            + partial));
    } else {
        assert(pipeline(commands) + partial =~= partial);
    }
}

/// A terminator stands nowhere in these bytes.
pub open spec fn is_unterminated(bytes: Seq<u8>) -> bool {
    forall|i: int| 0 <= i < bytes.len() - 1 ==> !(bytes[i] == 13 && #[trigger] bytes[i + 1] == 10)
}

proof fn lemma_text_line(text: Seq<u8>, rest: Seq<u8>)
    requires
        is_unterminated(text),
    ensures
        line_of(text + crlf() + rest) == Some(text.len() + 2),
{
    let bytes = text + crlf() + rest;
    assert forall|at: int| 0 <= at < text.len() implies !#[trigger] terminator_at(bytes, at) by {
        assert(bytes[at] == text[at]);
        if at + 1 < text.len() {
            assert(bytes[at + 1] == text[at + 1]);
        } else {
            assert(bytes[at + 1] == 13);
        }
    }
    assert(terminator_at(bytes, text.len() as int));
    assert(is_line(bytes, text.len() + 2));
    lemma_line(bytes, text.len() + 2);
}

/// A line that does not begin with `*` is one command, as long as the line with
/// its terminator, whatever follows it.
pub proof fn law_an_inline_command_is_its_line(text: Seq<u8>, rest: Seq<u8>)
    requires
        is_unterminated(text),
        text.len() > 0 ==> text[0] != 42,
    ensures
        line_of(text + crlf() + rest) == Some(text.len() + 2),
        command_of(text + crlf() + rest) == Some(text.len() + 2),
        commands_of(text + crlf() + rest) == (
            commands_of(rest).0 + 1,
            commands_of(rest).1 + text.len() + 2,
        ),
{
    let bytes = text + crlf() + rest;
    lemma_text_line(text, rest);
    assert(bytes[0] == if text.len() > 0 {
        text[0]
    } else {
        13
    });
    assert(bytes.skip((text.len() + 2) as int) =~= rest);
}

/// Bytes without a terminator hold no command and no line.
pub proof fn law_bytes_without_a_terminator_are_partial(bytes: Seq<u8>)
    requires
        is_unterminated(bytes),
    ensures
        line_of(bytes) is None,
        command_of(bytes) is None,
        commands_of(bytes) == (0nat, 0nat),
{
    assert forall|length: nat| !is_line(bytes, length) by {
        if is_line(bytes, length) {
            let at = length - 2;
            assert(bytes[at + 1] == 10);
        }
    }
}

/// Not the digits of a number: nothing at all, or something that is no digit.
pub open spec fn is_no_number(text: Seq<u8>) -> bool {
    text.len() == 0 || exists|i: int|
        0 <= i < text.len() && !(48 <= #[trigger] text[i] <= 57)
}

proof fn lemma_no_number(text: Seq<u8>)
    requires
        is_no_number(text),
    ensures
        number_of(text + crlf()) is None,
{
    let line = text + crlf();
    assert(line.take(line.len() - 2) =~= text);
}

/// A number is read as it is written, whatever zeros stand in front of it, or not
/// at all when it is too large; and what is not written in digits alone is no
/// number.
pub proof fn law_a_number_is_read_as_it_is_written(zeros: nat, value: nat, text: Seq<u8>)
    ensures
        number_of(numeral(zeros, value) + crlf()) == if value <= usize::MAX {
            Some(value)
        } else {
            None
        },
        is_no_number(text) ==> number_of(text + crlf()) is None,
{
    lemma_numeral(zeros, value);
    let digits = numeral(zeros, value);
    let line = digits + crlf();
    assert(line.take(line.len() - 2) =~= digits);
    assert(terminator_at(line, line.len() - 2));
    if is_no_number(text) {
        lemma_no_number(text);
    }
}

/// An array of `count` arguments of which some are written goes on with the next.
proof fn lemma_array_goes_on(count: nat, arguments: Seq<Argument>, tail: Seq<u8>)
    requires
        can_be_counted(arguments),
        arguments.len() < count <= usize::MAX,
    ensures
        command_of(header(42, 0, count) + encoded_arguments(arguments) + tail) == arguments_end(
            header(42, 0, count) + encoded_arguments(arguments) + tail,
            header(42, 0, count).len() + encoded_arguments(arguments).len(),
            (count - arguments.len()) as nat,
        ),
{
    let line = header(42, 0, count);
    let written = encoded_arguments(arguments);
    let bytes = line + written + tail;
    lemma_header(42, 0, count, written + tail);
    assert(bytes =~= line + (written + tail));
    assert(bytes.subrange(1, line.len() as int) =~= line.subrange(1, line.len() as int));
    assert(bytes[0] == 42);
    lemma_arguments_are_passed(line, arguments, tail, (count - arguments.len()) as nat);
}

/// Where a line without a number comes next, no argument ends.
proof fn lemma_no_argument(before: Seq<u8>, tail: Seq<u8>, length: nat, count: nat)
    requires
        count > 0,
        length >= 1,
        line_of(tail) == Some(length),
        length <= tail.len(),
        number_of(tail.subrange(1, length as int)) is None,
    ensures
        arguments_end(before + tail, before.len(), count) is None,
{
    let bytes = before + tail;
    let at = before.len();
    assert(bytes.skip(at as int) =~= tail);
    assert(bytes.subrange(at as int + 1, (at + length) as int) =~= tail.subrange(
        1,
        length as int,
    ));
}

/// A number too large to count is no count and no length: an array that is given
/// one, for its own arguments or for the length of the argument that comes next,
/// is no command.
pub proof fn law_a_number_too_large_frames_nothing(
    zeros: nat,
    value: nat,
    arguments: Seq<Argument>,
    count: nat,
    mark: u8,
    rest: Seq<u8>,
)
    requires
        value > usize::MAX,
        can_be_counted(arguments),
        arguments.len() < count <= usize::MAX,
    ensures
        command_of(header(42, zeros, value) + rest) is None,
        command_of(
            header(42, 0, count) + encoded_arguments(arguments) + (header(mark, zeros, value)
                + rest),
        ) is None,
{
    let large = header(42, zeros, value);
    lemma_header(42, zeros, value, rest);
    assert((large + rest).subrange(1, large.len() as int) =~= large.subrange(
        1,
        large.len() as int,
    ));
    assert((large + rest)[0] == 42);
    let length = header(mark, zeros, value);
    let tail = length + rest;
    lemma_array_goes_on(count, arguments, tail);
    lemma_header(mark, zeros, value, rest);
    assert(tail.subrange(1, length.len() as int) =~= length.subrange(1, length.len() as int));
    lemma_no_argument(
        header(42, 0, count) + encoded_arguments(arguments),
        tail,
        length.len(),
        (count - arguments.len()) as nat,
    );
}

/// An array needs a count: a line that begins with `*` and goes on with anything
/// but a number is no command, whatever follows it.
pub proof fn law_an_array_needs_a_count(text: Seq<u8>, rest: Seq<u8>)
    requires
        is_unterminated(text),
        is_no_number(text),
    ensures
        command_of(seq![42u8] + text + crlf() + rest) is None,
{
    let marked = seq![42u8] + text;
    let bytes = seq![42u8] + text + crlf() + rest;
    assert forall|i: int| 0 <= i < marked.len() - 1 implies !(marked[i] == 13
        && #[trigger] marked[i + 1] == 10) by {
        if i > 0 {
            assert(marked[i] == text[i - 1]);
            assert(marked[i + 1] == text[i - 1 + 1]);
        }
    }
    lemma_text_line(marked, rest);
    assert(bytes =~= marked + crlf() + rest);
    assert(bytes.subrange(1, (marked.len() + 2) as int) =~= text + crlf());
    lemma_no_number(text);
    assert(bytes[0] == 42);
}

/// An argument needs a length: an array of more arguments than are written, that
/// goes on with a line without a number, is no command.
pub proof fn law_an_argument_needs_a_length(
    arguments: Seq<Argument>,
    count: nat,
    mark: u8,
    text: Seq<u8>,
    rest: Seq<u8>,
)
    requires
        can_be_counted(arguments),
        arguments.len() < count <= usize::MAX,
        mark != 13,
        is_unterminated(text),
        is_no_number(text),
    ensures
        command_of(
            header(42, 0, count) + encoded_arguments(arguments) + (seq![mark] + text + crlf() + rest),
        ) is None,
{
    let marked = seq![mark] + text;
    let tail = seq![mark] + text + crlf() + rest;
    lemma_array_goes_on(count, arguments, tail);
    assert forall|i: int| 0 <= i < marked.len() - 1 implies !(marked[i] == 13
        && #[trigger] marked[i + 1] == 10) by {
        if i > 0 {
            assert(marked[i] == text[i - 1]);
            assert(marked[i + 1] == text[i - 1 + 1]);
        }
    }
    lemma_text_line(marked, rest);
    assert(tail =~= marked + crlf() + rest);
    assert(tail.subrange(1, (marked.len() + 2) as int) =~= text + crlf());
    lemma_no_number(text);
    lemma_no_argument(
        header(42, 0, count) + encoded_arguments(arguments),
        tail,
        marked.len() + 2,
        (count - arguments.len()) as nat,
    );
}

/// Every command is answered with the same seven bytes, `+PONG` and a
/// terminator: the replies to any number of commands are as many times as long,
/// and each of them reads the same.
pub proof fn law_every_reply_is_the_same(commands_count: nat, reply: int)
    requires
        0 <= reply < commands_count,
    ensures
        pongs(commands_count).len() == 7 * commands_count,
        pongs(commands_count)[7 * reply] == 43,
        pongs(commands_count)[7 * reply + 1] == 80,
        pongs(commands_count)[7 * reply + 2] == 79,
        pongs(commands_count)[7 * reply + 3] == 78,
        pongs(commands_count)[7 * reply + 4] == 71,
        pongs(commands_count)[7 * reply + 5] == 13,
        pongs(commands_count)[7 * reply + 6] == 10,
    decreases commands_count,
{
    let fewer = (commands_count - 1) as nat;
    if reply < fewer {
        law_every_reply_is_the_same(fewer, reply);
    } else {
        lemma_pongs_length(fewer);
    }
}

proof fn lemma_pongs_length(commands_count: nat)
    ensures
        pongs(commands_count).len() == 7 * commands_count,
    decreases commands_count,
{
    if commands_count > 0 {
        lemma_pongs_length((commands_count - 1) as nat);
    }
}

/// Replies are limited by what fits a buffer and by nothing else: half of the
/// address space, at seven bytes each.
pub proof fn law_replies_are_limited_by_memory_alone()
    ensures
        14 * REPLIES_MAX <= usize::MAX < 14 * (REPLIES_MAX + 1),
{
}

} // verus!
