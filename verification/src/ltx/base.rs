//! `base.json`, the pointer from a branched cell to its parent's log.

use vstd::prelude::*;
use crate::text;

verus! {

/// The name of a base pointer's object.
pub const BASE_JSON: &'static str = "base.json";

/// The bytes at the end of a log file that hold its checksums.
pub const TRAILER_SIZE: usize = 16;

/// A checksum of a database or of a log file.
pub type Checksum = u64;

/// A transaction id.
#[derive(Clone, Copy, Debug, PartialEq, Eq, PartialOrd, Ord, Hash, Structural)]
pub struct TXID(pub u64);

/// What can be wrong with a log file or a replica.
#[derive(Debug)]
pub enum Error {
    /// A log file is cut short.
    LTXCorrupted,
    /// A transaction is not on the replica.
    TxNotAvailable,
    Other(String),
}

/// The contents of `cells/<scope>/ltx/e<epoch>/base.json`.
#[derive(Debug)]
pub struct BasePointer {
    pub parent_bucket: String,
    pub parent_cell: String,
    pub parent_epoch: u64,
    pub fork_txid: u64,
    pub fork_checksum: String,
}

/// The number that a run of hexadecimal digits spells.
pub open spec fn hex_value(digits: Seq<char>) -> nat
    decreases digits.len(),
{
    if digits.len() == 0 {
        0
    } else {
        hex_value(digits.drop_last()) * 16 + (match text::hex_digit(digits.last()) {
            Some(digit) => digit,
            None => 0,
        })
    }
}

/// Are these hexadecimal digits and nothing else?
pub open spec fn all_hex(digits: Seq<char>) -> bool {
    forall|i: int| 0 <= i < digits.len() ==> text::hex_digit(#[trigger] digits[i]) is Some
}

/// The digits of a checksum: one leading `0x` is no part of them.
pub open spec fn checksum_digits(text: Seq<char>) -> Seq<char> {
    text::without_prefix(text, "0x"@)
}

/// Does `text` spell a checksum?
pub open spec fn is_checksum(text: Seq<char>) -> bool {
    checksum_digits(text).len() == 16 && all_hex(checksum_digits(text))
}

impl BasePointer {
    pub fn fork_txid(&self) -> (txid: TXID)
        ensures
            txid == TXID(self.fork_txid),
    {
        TXID(self.fork_txid)
    }

    pub fn fork_checksum_value(&self) -> (value: Result<Checksum, Error>)
        ensures
            value is Ok <==> is_checksum(self.fork_checksum@),
            value matches Ok(value) ==> value as nat == hex_value(
                checksum_digits(self.fork_checksum@),
            ),
            value matches Err(error) ==> error matches Error::Other(message) && message@
                == bad_checksum(text::debug_quoted(checksum_digits(self.fork_checksum@))),
    {
        parse_checksum_hex(self.fork_checksum.as_str())
    }
}

/// The message for digits that spell no checksum, given their quoted form.
pub open spec fn bad_checksum(quoted: Seq<char>) -> Seq<char> {
    "invalid fork_checksum hex: "@ + quoted
}

/// The error for digits that spell no checksum, given their quoted form.
pub fn bad_checksum_error(quoted: &str) -> (error: Error)
    ensures
        error matches Error::Other(message) && message@ == bad_checksum(quoted@),
{
    let mut message = "invalid fork_checksum hex: ".to_owned();
    message.append(quoted);
    Error::Other(message)
}

proof fn lemma_hex_bound(digits: Seq<char>)
    ensures
        hex_value(digits) < vstd::arithmetic::power::pow(16, digits.len()),
    decreases digits.len(),
{
    reveal(vstd::arithmetic::power::pow);
    if digits.len() > 0 {
        lemma_hex_bound(digits.drop_last());
    }
}

proof fn lemma_sixteen_digits()
    ensures
        vstd::arithmetic::power::pow(16, 16) == 0x1_0000_0000_0000_0000,
{
    reveal_with_fuel(vstd::arithmetic::power::pow, 17);
}

/// Read a checksum: 16 hexadecimal digits, behind an optional `0x`.
pub fn parse_checksum_hex(text: &str) -> (value: Result<Checksum, Error>)
    ensures
        value is Ok <==> is_checksum(text@),
        value matches Ok(value) ==> value as nat == hex_value(checksum_digits(text@)),
        value matches Err(error) ==> error matches Error::Other(message) && message@
            == bad_checksum(text::debug_quoted(checksum_digits(text@))),
{
    let digits: String = match text::strip_prefix(text, "0x") {
        Some(rest) => rest,
        None => text.to_owned(),
    };
    let chars = text::chars_of(digits.as_str());
    if chars.len() != 16 {
        return Err(bad_checksum_error(text::debug_text(digits.as_str()).as_str()));
    }
    let mut value: u64 = 0;
    let mut at: usize = 0;
    assert(chars@.take(0) =~= Seq::<char>::empty());
    while at < chars.len()
        invariant
            at <= chars@.len(),
            chars@.len() == 16,
            chars@ == digits@,
            digits@ == checksum_digits(text@),
            all_hex(chars@.take(at as int)),
            value as nat == hex_value(chars@.take(at as int)),
        decreases chars@.len() - at,
    {
        match text::hex_digit_of(chars[at]) {
            None => {
                assert(text::hex_digit(chars@[at as int]) is None);
                return Err(bad_checksum_error(text::debug_text(digits.as_str()).as_str()));
            },
            Some(digit) => {
                proof {
                    let now = chars@.take(at + 1);
                    assert(now.drop_last() =~= chars@.take(at as int));
                    assert(now.last() == chars@[at as int]);
                    lemma_hex_bound(now);
                    lemma_sixteen_digits();
                    vstd::arithmetic::power::lemma_pow_increases(16, (at + 1) as nat, 16);
                    assert forall|i: int| 0 <= i < now.len() implies text::hex_digit(
                        #[trigger] now[i],
                    ) is Some by {
                        if i < at {
                            assert(now[i] == chars@.take(at as int)[i]);
                        }
                    }
                }
                value = value * 16 + digit as u64;
                at = at + 1;
            },
        }
    }
    assert(chars@.take(at as int) =~= chars@);
    Ok(value)
}

/// A checksum as 16 lower-case hexadecimal digits.
pub fn checksum_hex(value: Checksum) -> (text: String)
    ensures
        text@ == text::hex(value as nat, 16),
{
    let mut out = String::new();
    text::push_hex(&mut out, value, 16);
    assert(out@ =~= text::hex(value as nat, 16));
    out
}

/// The number that eight bytes spell, the most significant first.
pub open spec fn big_endian(bytes: Seq<u8>) -> nat
    decreases bytes.len(),
{
    if bytes.len() == 0 {
        0
    } else {
        big_endian(bytes.drop_last()) * 256 + bytes.last() as nat
    }
}

proof fn lemma_big_endian_bound(bytes: Seq<u8>)
    ensures
        big_endian(bytes) < vstd::arithmetic::power::pow(256, bytes.len()),
    decreases bytes.len(),
{
    reveal(vstd::arithmetic::power::pow);
    if bytes.len() > 0 {
        lemma_big_endian_bound(bytes.drop_last());
    }
}

/// Eight bytes spell a number of 64 bits.
pub proof fn lemma_eight_bytes(bytes: Seq<u8>)
    requires
        bytes.len() == 8,
    ensures
        big_endian(bytes) <= u64::MAX,
{
    lemma_big_endian_bound(bytes);
    reveal_with_fuel(vstd::arithmetic::power::pow, 9);
}

/// The checksum of the database after the log file that `bytes` holds was
/// applied: the first eight bytes of its trailer.
pub fn post_apply_checksum_from_ltx(bytes: &[u8]) -> (value: Result<Checksum, Error>)
    ensures
        value is Ok <==> bytes@.len() >= TRAILER_SIZE,
        value matches Ok(value) ==> value as nat == big_endian(
            bytes@.subrange(bytes@.len() - 16, bytes@.len() - 8),
        ),
        value matches Err(error) ==> error is LTXCorrupted,
{
    let total: usize = bytes.len();
    if total < TRAILER_SIZE {
        return Err(Error::LTXCorrupted);
    }
    let start: usize = total - TRAILER_SIZE;
    let ghost field = bytes@.subrange(start as int, start + 8);
    let mut value: u64 = 0;
    let mut at: usize = 0;
    assert(field.take(0) =~= Seq::<u8>::empty());
    while at < 8
        invariant
            at <= 8,
            total == bytes@.len(),
            start + 16 == total,
            field == bytes@.subrange(start as int, start + 8),
            value as nat == big_endian(field.take(at as int)),
        decreases 8 - at,
    {
        proof {
            let now = field.take(at + 1);
            assert(now.drop_last() =~= field.take(at as int));
            assert(now.last() == bytes@[start + at]);
            lemma_big_endian_bound(now);
            reveal_with_fuel(vstd::arithmetic::power::pow, 9);
            vstd::arithmetic::power::lemma_pow_increases(256, (at + 1) as nat, 8);
        }
        value = value * 256 + bytes[start + at] as u64;
        at = at + 1;
    }
    assert(field.take(8) =~= field);
    Ok(value)
}

/// Where the base pointer of the epoch under `epoch_prefix` is.
pub fn base_json_key(epoch_prefix: &str) -> (key: String)
    ensures
        key@ == epoch_prefix@ + "/"@ + "base.json"@,
{
    let mut key = epoch_prefix.to_owned();
    key.append("/");
    key.append(BASE_JSON);
    key
}

proof fn lemma_hex_digit_char(value: nat)
    requires
        value < 16,
    ensures
        text::hex_digit(text::hex_char(value)) == Some(value),
        text::hex_char(value) != 'x',
{
}

proof fn lemma_hex_reads_back(value: nat, width: nat)
    requires
        value < vstd::arithmetic::power::pow(16, width),
    ensures
        text::hex(value, width).len() == width,
        all_hex(text::hex(value, width)),
        hex_value(text::hex(value, width)) == value,
        forall|i: int| 0 <= i < width ==> #[trigger] text::hex(value, width)[i] != 'x',
    decreases width,
{
    reveal(vstd::arithmetic::power::pow);
    if width > 0 {
        let rest = (width - 1) as nat;
        assert(value / 16 < vstd::arithmetic::power::pow(16, rest)) by (nonlinear_arith)
            requires
                value < 16 * vstd::arithmetic::power::pow(16, rest),
        ;
        lemma_hex_reads_back(value / 16, rest);
        lemma_hex_digit_char(value % 16);
        let digits = text::hex(value, width);
        assert(digits.drop_last() =~= text::hex(value / 16, rest));
        assert(digits.last() == text::hex_char(value % 16));
        assert forall|i: int| 0 <= i < digits.len() implies text::hex_digit(#[trigger] digits[i])
            is Some && digits[i] != 'x' by {
            if i < rest {
                assert(digits[i] == text::hex(value / 16, rest)[i]);
            }
        }
    }
}

/// A checksum that was written reads back as itself.
pub proof fn law_checksum_reads_back(value: Checksum)
    ensures
        is_checksum(text::hex(value as nat, 16)),
        hex_value(checksum_digits(text::hex(value as nat, 16))) == value as nat,
{
    lemma_sixteen_digits();
    lemma_hex_reads_back(value as nat, 16);
    let digits = text::hex(value as nat, 16);
    reveal_strlit("0x");
    if text::has_prefix(digits, "0x"@) {
        assert(digits.subrange(0, 2)[1] == digits[1]);
        assert("0x"@[1] == 'x');
    }
    assert(checksum_digits(digits) == digits);
}

proof fn lemma_hex_spells_its_value(digits: Seq<char>)
    requires
        all_hex(digits),
    ensures
        text::hex(hex_value(digits), digits.len()) == text::lower(digits),
    decreases digits.len(),
{
    if digits.len() > 0 {
        let rest = digits.drop_last();
        assert forall|i: int| 0 <= i < rest.len() implies text::hex_digit(#[trigger] rest[i])
            is Some by {
            assert(rest[i] == digits[i]);
        }
        lemma_hex_spells_its_value(rest);
        let last = digits[digits.len() - 1];
        assert(text::hex_digit(last) is Some);
        let digit = text::hex_digit(last)->0;
        assert(digit < 16);
        assert(text::hex_char(digit) == text::lower_char(last));
        let value = hex_value(digits);
        assert(value == hex_value(rest) * 16 + digit);
        assert(value / 16 == hex_value(rest) && value % 16 == digit) by (nonlinear_arith)
            requires
                value == hex_value(rest) * 16 + digit,
                0 <= digit < 16,
        ;
        assert(text::lower(digits) =~= text::lower(rest).push(text::lower_char(last)));
    } else {
        assert(text::lower(digits) =~= Seq::<char>::empty());
    }
}

/// A checksum is written as 16 characters and reads back, with or without `0x`
/// before it. What reads as a checksum is 16 hexadecimal digits and is written as
/// they are, in lower case; anything else does not.
pub proof fn law_checksum_is_read_as_written(
    value: Checksum,
    written: String,
    plain: &str,
    marked: &str,
    read: Result<Checksum, Error>,
    also: Result<Checksum, Error>,
    spelled: &str,
    found: Result<Checksum, Error>,
    again: String,
)
    requires
        call_ensures(checksum_hex, (value,), written),
        plain@ == written@,
        call_ensures(parse_checksum_hex, (plain,), read),
        marked@ == "0x"@ + written@,
        call_ensures(parse_checksum_hex, (marked,), also),
        call_ensures(parse_checksum_hex, (spelled,), found),
        found matches Ok(found) ==> call_ensures(checksum_hex, (found,), again),
    ensures
        written@.len() == 16,
        read == Ok::<Checksum, Error>(value),
        also == Ok::<Checksum, Error>(value),
        found is Ok ==> again@ == text::lower(spelled@) || "0x"@ + again@ == "0x"@ + text::lower(
            spelled@.skip(2),
        ) && spelled@.take(2) == "0x"@,
        found is Ok ==> spelled@.len() == 16 || spelled@.len() == 18,
        found is Err && (spelled@.len() == 16 || spelled@.len() == 18 && spelled@.take(2) == "0x"@)
            ==> exists|i: int|
            spelled@.len() - 16 <= i < spelled@.len() && {
                let ch = #[trigger] spelled@[i];
                !('0' <= ch <= '9') && !('a' <= ch <= 'f') && !('A' <= ch <= 'F')
            },
{
    law_checksum_reads_back(value);
    lemma_sixteen_digits();
    lemma_hex_reads_back(value as nat, 16);
    reveal_strlit("0x");
    assert(marked@.subrange(0, 2) =~= "0x"@);
    assert(checksum_digits(marked@) =~= written@);
    assert(checksum_digits(written@) == written@) by {
        if text::has_prefix(written@, "0x"@) {
            assert(written@.subrange(0, 2)[1] == written@[1]);
            assert("0x"@[1] == 'x');
        }
    }
    assert(is_checksum(written@) && is_checksum(marked@));
    if found is Ok {
        let digits = checksum_digits(spelled@);
        lemma_hex_spells_its_value(digits);
        if text::has_prefix(spelled@, "0x"@) {
            assert(digits =~= spelled@.skip(2));
            assert(spelled@.take(2) =~= "0x"@);
        }
    }
    if found is Err && spelled@.len() == 16 {
        let digits = checksum_digits(spelled@);
        if text::has_prefix(spelled@, "0x"@) {
            assert(spelled@.subrange(0, 2)[1] == spelled@[1]);
            assert("0x"@[1] == 'x');
            assert(spelled@[1] == 'x');
        } else {
            assert(digits == spelled@);
            let i = choose|i: int|
                0 <= i < digits.len() && text::hex_digit(#[trigger] digits[i]) is None;
            assert(text::hex_digit(spelled@[i]) is None);
        }
    }
    if found is Err && spelled@.len() == 18 && spelled@.take(2) == "0x"@ {
        let digits = checksum_digits(spelled@);
        assert(spelled@.subrange(0, 2) =~= "0x"@);
        assert(digits =~= spelled@.skip(2));
        let i = choose|i: int|
            0 <= i < digits.len() && text::hex_digit(#[trigger] digits[i]) is None;
        assert(text::hex_digit(spelled@[i + 2]) is None);
    }
}

/// A base pointer tells the transaction of its fork, and the checksum that its text
/// reads as.
pub proof fn law_pointer_tells_its_fork(
    pointer: BasePointer,
    txid: TXID,
    value: Result<Checksum, Error>,
    text: &str,
    read: Result<Checksum, Error>,
)
    requires
        call_ensures(BasePointer::fork_txid, (&pointer,), txid),
        call_ensures(BasePointer::fork_checksum_value, (&pointer,), value),
        text@ == pointer.fork_checksum@,
        call_ensures(parse_checksum_hex, (text,), read),
    ensures
        txid.0 == pointer.fork_txid,
        value is Ok <==> read is Ok,
        value is Ok ==> value == read,
{
}

/// The checksum after a log file stands sixteen bytes before its end, in eight bytes
/// with the most significant first. A file without that many bytes has none.
pub proof fn law_checksum_stands_before_the_end(bytes: &[u8], value: Result<Checksum, Error>)
    requires
        call_ensures(post_apply_checksum_from_ltx, (bytes,), value),
    ensures
        value is Ok <==> bytes@.len() >= 16,
        value matches Ok(value) ==> {
            let at = bytes@.len() - 16;
            value == bytes@[at] * 0x100_0000_0000_0000 + bytes@[at + 1] * 0x1_0000_0000_0000
                + bytes@[at + 2] * 0x100_0000_0000 + bytes@[at + 3] * 0x1_0000_0000 + bytes@[at + 4]
                * 0x100_0000 + bytes@[at + 5] * 0x1_0000 + bytes@[at + 6] * 0x100 + bytes@[at + 7]
        },
{
    if bytes@.len() >= 16 {
        let at = bytes@.len() - 16;
        let field = bytes@.subrange(at, at + 8);
        reveal_with_fuel(big_endian, 9);
        assert(field.len() == 8);
        assert(field.drop_last() =~= bytes@.subrange(at, at + 7));
        assert(bytes@.subrange(at, at + 7).drop_last() =~= bytes@.subrange(at, at + 6));
        assert(bytes@.subrange(at, at + 6).drop_last() =~= bytes@.subrange(at, at + 5));
        assert(bytes@.subrange(at, at + 5).drop_last() =~= bytes@.subrange(at, at + 4));
        assert(bytes@.subrange(at, at + 4).drop_last() =~= bytes@.subrange(at, at + 3));
        assert(bytes@.subrange(at, at + 3).drop_last() =~= bytes@.subrange(at, at + 2));
        assert(bytes@.subrange(at, at + 2).drop_last() =~= bytes@.subrange(at, at + 1));
        assert(bytes@.subrange(at, at + 1).drop_last() =~= Seq::<u8>::empty());
        assert(big_endian(bytes@.subrange(at, at + 1)) == bytes@[at]);
        assert(big_endian(bytes@.subrange(at, at + 2)) == bytes@[at] * 256 + bytes@[at + 1]);
        assert(big_endian(bytes@.subrange(at, at + 3)) == (bytes@[at] * 256 + bytes@[at + 1]) * 256
            + bytes@[at + 2]);
    }
}

/// A base pointer stands right below the prefix of its epoch.
pub proof fn law_pointer_stands_below_its_epoch(epoch_prefix: &str, key: String)
    requires
        call_ensures(base_json_key, (epoch_prefix,), key),
    ensures
        key@ == epoch_prefix@ + "/base.json"@,
{
    reveal_strlit("/");
    reveal_strlit("base.json");
    reveal_strlit("/base.json");
    assert(key@ =~= epoch_prefix@ + "/base.json"@);
}

/// Digits that spell no checksum are told as they are quoted.
pub proof fn law_bad_checksum_is_quoted(
    quoted: &str,
    error: Error,
    spelled: &str,
    value: Result<Checksum, Error>,
)
    requires
        call_ensures(bad_checksum_error, (quoted,), error),
        call_ensures(parse_checksum_hex, (spelled,), value),
        value is Err ==> quoted@ == text::debug_quoted(text::without_prefix(spelled@, "0x"@)),
    ensures
        error matches Error::Other(message) && message@ == "invalid fork_checksum hex: "@ + quoted@,
        value is Err ==> (value->Err_0 matches Error::Other(message) && message@
            == "invalid fork_checksum hex: "@ + quoted@),
{
}

} // verus!
