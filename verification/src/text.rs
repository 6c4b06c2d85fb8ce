//! Strings without NUL bytes, and the text of WebVTT cues.

use vstd::prelude::*;
use vstd::string::StringExecFns;
use vstd::utf8::encode_utf8;

verus! {

/// Whether `text`, in UTF-8, is free of NUL bytes.
pub open spec fn nul_free(text: Seq<char>) -> bool {
    forall|i: int| 0 <= i < encode_utf8(text).len() ==> #[trigger] encode_utf8(text)[i] != 0
}

/// Whether `position` is where the first NUL byte of `bytes` stands.
pub open spec fn first_nul_at(bytes: Seq<u8>, position: int) -> bool {
    &&& 0 <= position < bytes.len()
    &&& bytes[position] == 0
    &&& forall|i: int| 0 <= i < position ==> #[trigger] bytes[i] != 0
}

/// A string that holds no NUL byte, and so can be written as a
/// NUL-terminated string without losing its end.
pub struct WebvttString(String);

/// A string was refused because of a NUL byte in it.
pub struct NulError {
    /// The string that was refused.
    pub string: String,
    /// The offset of its first NUL byte, counted in bytes of UTF-8.
    pub nul_position: usize,
}

/// Looks for the first NUL byte in `bytes`.
fn find_nul(bytes: &[u8]) -> (r: Option<usize>)
    ensures
        match r {
            Some(position) => first_nul_at(bytes@, position as int),
            None => forall|i: int| 0 <= i < bytes@.len() ==> #[trigger] bytes@[i] != 0,
        },
{
    let mut i: usize = 0;
    while i < bytes.len()
        invariant
            i <= bytes.len(),
            forall|j: int| 0 <= j < i ==> #[trigger] bytes@[j] != 0,
        decreases bytes.len() - i,
    {
        if bytes[i] == 0 {
            return Some(i);
        }
        i += 1;
    }
    None
}

impl View for WebvttString {
    type V = Seq<char>;

    closed spec fn view(&self) -> Seq<char> {
        self.0@
    }
}

impl WebvttString {
    #[verifier::type_invariant]
    spec fn holds_no_nul(&self) -> bool {
        nul_free(self.0@)
    }

    /// Makes a `WebvttString` of `string`, provided that `string` holds no
    /// NUL byte. Where it holds one, `string` comes back with the offset of
    /// the first.
    pub fn from_string(string: String) -> (r: Result<Self, NulError>)
        ensures
            match r {
                Ok(checked) => checked@ == string@ && nul_free(string@),
                Err(e) => e.string == string && first_nul_at(
                    encode_utf8(string@),
                    e.nul_position as int,
                ),
            },
    {
        match find_nul(string.as_str().as_bytes()) {
            Some(nul_position) => Err(NulError { string, nul_position }),
            None => Ok(WebvttString(string)),
        }
    }

    /// The string as a slice.
    pub fn as_str(&self) -> (s: &str)
        ensures
            s@ == self@,
            nul_free(s@),
    {
        proof {
            use_type_invariant(self);
        }
        self.0.as_str()
    }

    /// The string, no longer known to be free of NUL bytes by its type.
    pub fn into_string(self) -> (s: String)
        ensures
            s@ == self@,
            nul_free(s@),
    {
        proof {
            use_type_invariant(&self);
        }
        self.0
    }
}

/// The character of the decimal digit `digit`.
pub open spec fn digit_char(digit: int) -> char {
    if digit == 0 {
        '0'
    } else if digit == 1 {
        '1'
    } else if digit == 2 {
        '2'
    } else if digit == 3 {
        '3'
    } else if digit == 4 {
        '4'
    } else if digit == 5 {
        '5'
    } else if digit == 6 {
        '6'
    } else if digit == 7 {
        '7'
    } else if digit == 8 {
        '8'
    } else {
        '9'
    }
}

/// `n` in decimal digits, without leading zeros.
pub open spec fn decimal(n: nat) -> Seq<char>
    decreases n,
{
    if n < 10 {
        seq![digit_char(n as int)]
    } else {
        decimal(n / 10).push(digit_char((n % 10) as int))
    }
}

/// `n` in decimal digits, with zeros in front up to `width` digits.
pub open spec fn zero_padded(n: nat, width: nat) -> Seq<char> {
    let digits = decimal(n);
    if digits.len() >= width {
        digits
    } else {
        Seq::new((width - digits.len()) as nat, |i: int| '0') + digits
    }
}

/// A point in time as WebVTT writes it: hours, minutes and seconds with
/// two digits at least, and milliseconds with three.
pub open spec fn timestamp_text(nanos: nat) -> Seq<char> {
    let secs = nanos / 1_000_000_000;
    let millis = (nanos / 1_000_000) % 1000;
    zero_padded(secs / 3600, 2) + seq![':'] + zero_padded(secs % 3600 / 60, 2) + seq![':']
        + zero_padded(secs % 60, 2) + seq!['.'] + zero_padded(millis, 3)
}

/// The arrow between the two timestamps of a cue.
pub open spec fn arrow_text() -> Seq<char> {
    seq![' ', '-', '-', '>', ' ']
}

/// A cue as WebVTT writes it: its two timestamps with an arrow between, its
/// text on the next line, and an empty line behind it.
pub open spec fn cue_block(start_nanos: nat, end_nanos: nat, text: Seq<char>) -> Seq<char> {
    timestamp_text(start_nanos) + arrow_text() + timestamp_text(end_nanos) + seq!['\n'] + text
        + seq!['\n', '\n']
}

/// The digits in `digits`, read from the last to the first, as characters.
pub open spec fn reversed_digits(digits: Seq<u8>) -> Seq<char> {
    Seq::new(digits.len(), |i: int| digit_char(digits[digits.len() - 1 - i] as int))
}

/// The one-character string of the decimal digit `digit`.
fn digit_str(digit: u8) -> (s: &'static str)
    requires
        digit < 10,
    ensures
        s@ == seq![digit_char(digit as int)],
{
    proof {
        reveal_strlit("0");
        reveal_strlit("1");
        reveal_strlit("2");
        reveal_strlit("3");
        reveal_strlit("4");
        reveal_strlit("5");
        reveal_strlit("6");
        reveal_strlit("7");
        reveal_strlit("8");
        reveal_strlit("9");
    }
    let s = if digit == 0 {
        "0"
    } else if digit == 1 {
        "1"
    } else if digit == 2 {
        "2"
    } else if digit == 3 {
        "3"
    } else if digit == 4 {
        "4"
    } else if digit == 5 {
        "5"
    } else if digit == 6 {
        "6"
    } else if digit == 7 {
        "7"
    } else if digit == 8 {
        "8"
    } else {
        "9"
    };
    assert(s@ =~= seq![digit_char(digit as int)]);
    s
}

/// Appends `value` in decimal digits to `buffer`, with zeros in front up to
/// `width` digits.
pub fn push_zero_padded(buffer: &mut String, value: u128, width: usize)
    ensures
        final(buffer)@ == old(buffer)@ + zero_padded(value as nat, width as nat),
{
    let mut digits: Vec<u8> = Vec::new();
    let mut rest = value;
    assert(decimal(value as nat) =~= decimal(rest as nat) + reversed_digits(digits@));
    while rest >= 10
        invariant
            decimal(value as nat) == decimal(rest as nat) + reversed_digits(digits@),
            forall|i: int| 0 <= i < digits@.len() ==> #[trigger] digits@[i] < 10,
        decreases rest,
    {
        let ghost before = digits@;
        digits.push((rest % 10) as u8);
        proof {
            let digit = digit_char((rest % 10) as int);
            assert(reversed_digits(digits@) =~= seq![digit] + reversed_digits(before));
            assert(decimal((rest / 10) as nat).push(digit) + reversed_digits(before) =~= decimal(
                (rest / 10) as nat,
            ) + (seq![digit] + reversed_digits(before)));
        }
        rest = rest / 10;
    }
    let ghost before = digits@;
    digits.push(rest as u8);
    assert(reversed_digits(digits@) =~= seq![digit_char(rest as int)] + reversed_digits(before));
    assert(reversed_digits(digits@) == decimal(value as nat));
    let ghost unpadded = digits@.len();
    while digits.len() < width
        invariant
            unpadded == decimal(value as nat).len(),
            unpadded <= digits@.len(),
            digits@.len() <= unpadded || digits@.len() <= width,
            reversed_digits(digits@) == Seq::new((digits@.len() - unpadded) as nat, |i: int| '0')
                + decimal(value as nat),
            forall|i: int| 0 <= i < digits@.len() ==> #[trigger] digits@[i] < 10,
        decreases width - digits.len(),
    {
        let ghost before = digits@;
        digits.push(0);
        assert(reversed_digits(digits@) =~= seq!['0'] + reversed_digits(before));
        assert(reversed_digits(digits@) =~= Seq::new(
            (digits@.len() - unpadded) as nat,
            |i: int| '0',
        ) + decimal(value as nat));
    }
    assert(reversed_digits(digits@) =~= zero_padded(value as nat, width as nat));
    let mut left = digits.len();
    assert(reversed_digits(digits@).take(0) =~= Seq::<char>::empty());
    assert(old(buffer)@ + Seq::<char>::empty() =~= old(buffer)@);
    while left > 0
        invariant
            left <= digits@.len(),
            buffer@ == old(buffer)@ + reversed_digits(digits@).take(digits@.len() - left),
            forall|i: int| 0 <= i < digits@.len() ==> #[trigger] digits@[i] < 10,
        decreases left,
    {
        left -= 1;
        let ghost before = buffer@;
        buffer.append(digit_str(digits[left]));
        proof {
            let all = reversed_digits(digits@);
            let k = digits@.len() - left - 1;
            assert(all.take(k + 1) =~= all.take(k).push(all[k]));
            assert(buffer@ =~= old(buffer)@ + all.take(k + 1));
        }
    }
    assert(reversed_digits(digits@).take(digits@.len() as int) =~= reversed_digits(digits@));
}

/// Appends the point in time `nanos`, as WebVTT writes it, to `buffer`.
pub fn push_timestamp(buffer: &mut String, nanos: u128)
    ensures
        final(buffer)@ == old(buffer)@ + timestamp_text(nanos as nat),
{
    let secs = nanos / 1_000_000_000;
    let millis = (nanos / 1_000_000) % 1000;
    proof {
        reveal_strlit(":");
        reveal_strlit(".");
    }
    push_zero_padded(buffer, secs / 3600, 2);
    buffer.append(":");
    push_zero_padded(buffer, secs % 3600 / 60, 2);
    buffer.append(":");
    push_zero_padded(buffer, secs % 60, 2);
    buffer.append(".");
    push_zero_padded(buffer, millis, 3);
    assert(buffer@ =~= old(buffer)@ + timestamp_text(nanos as nat));
}

/// Appends a cue, as WebVTT writes it, to `buffer`.
pub fn push_cue_block(buffer: &mut String, start_nanos: u128, end_nanos: u128, text: &str)
    ensures
        final(buffer)@ == old(buffer)@ + cue_block(start_nanos as nat, end_nanos as nat, text@),
{
    proof {
        reveal_strlit(" --> ");
        reveal_strlit("\n");
        reveal_strlit("\n\n");
    }
    push_timestamp(buffer, start_nanos);
    buffer.append(" --> ");
    push_timestamp(buffer, end_nanos);
    buffer.append("\n");
    buffer.append(text);
    buffer.append("\n\n");
    assert(" --> "@ =~= arrow_text());
    assert("\n"@ =~= seq!['\n']);
    assert("\n\n"@ =~= seq!['\n', '\n']);
    assert(buffer@ =~= old(buffer)@ + cue_block(start_nanos as nat, end_nanos as nat, text@));
}

} // verus!
