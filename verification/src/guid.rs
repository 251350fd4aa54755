//! Object-type identifiers.

use vstd::prelude::*;

verus! {

/// A 128-bit GUID — an AD property-set, extended-right, or object-class
/// identifier used as an object ACE's `ObjectType`.
///
/// Stored as the 16 bytes of the canonical string in order (not Windows'
/// mixed-endian binary layout); comparison is symmetric, so as long as both
/// the ACE and the request build their `Guid` via [`Guid::parse`], matching is
/// correct.
#[derive(Clone, Copy, Debug, Eq, Hash)]
pub struct Guid([u8; 16]);

/// A GUID is viewed as the sequence of its bytes.
impl View for Guid {
    type V = Seq<u8>;

    closed spec fn view(&self) -> Seq<u8> {
        self.0@
    }
}

/// The value of a hexadecimal digit of either case; `None` for any other
/// character.
pub open spec fn hex_value(c: char) -> Option<u8> {
    if '0' <= c <= '9' {
        Some((c as u8 - '0' as u8) as u8)
    } else if 'a' <= c <= 'f' {
        Some((c as u8 - 'a' as u8 + 10) as u8)
    } else if 'A' <= c <= 'F' {
        Some((c as u8 - 'A' as u8 + 10) as u8)
    } else {
        None
    }
}

/// `text` without its dashes.
pub open spec fn undashed(text: Seq<char>) -> Seq<char> {
    text.filter(|c: char| c != '-')
}

/// `text` is 32 hexadecimal digits, dashes aside.
pub open spec fn is_guid_text(text: Seq<char>) -> bool {
    &&& undashed(text).len() == 32
    &&& forall|i: int| 0 <= i < 32 ==> hex_value(#[trigger] undashed(text)[i]) is Some
}

/// The bytes that a GUID text denotes: each pair of its digits is one byte,
/// high digit first.
pub open spec fn guid_text_bytes(text: Seq<char>) -> Seq<u8> {
    Seq::new(
        16,
        |i: int|
            (16 * hex_value(undashed(text)[2 * i])->0 + hex_value(
                undashed(text)[2 * i + 1],
            )->0) as u8,
    )
}

fn hex_digit(c: char) -> (value: Option<u8>)
    ensures
        value == hex_value(c),
{
    if '0' <= c && c <= '9' {
        Some(c as u8 - '0' as u8)
    } else if 'a' <= c && c <= 'f' {
        Some(c as u8 - 'a' as u8 + 10)
    } else if 'A' <= c && c <= 'F' {
        Some(c as u8 - 'A' as u8 + 10)
    } else {
        None
    }
}

impl PartialEq for Guid {
    fn eq(&self, other: &Self) -> (same: bool) {
        let mut i: usize = 0;
        while i < 16
            invariant
                i <= 16,
                forall|j: int| 0 <= j < i ==> self.0@[j] == other.0@[j],
            decreases 16 - i,
        {
            if self.0[i] != other.0[i] {
                assert(self@[i as int] != other@[i as int]);
                return false;
            }
            i += 1;
        }
        assert(self@ =~= other@);
        true
    }
}

impl vstd::std_specs::cmp::PartialEqSpecImpl for Guid {
    open spec fn obeys_eq_spec() -> bool {
        true
    }

    open spec fn eq_spec(&self, other: &Self) -> bool {
        self@ == other@
    }
}

impl Guid {
    /// Wrap 16 raw bytes.
    pub fn from_bytes(b: [u8; 16]) -> (guid: Guid)
        ensures
            guid@ == b@,
    {
        Guid(b)
    }

    /// The raw bytes.
    pub fn bytes(&self) -> (b: [u8; 16])
        ensures
            b@ == self@,
    {
        self.0
    }

    /// Parse the canonical `xxxxxxxx-xxxx-xxxx-xxxx-xxxxxxxxxxxx` form
    /// (dashes optional, case-insensitive). Returns `None` if it isn't 32 hex
    /// digits.
    pub fn parse(s: &str) -> (guid: Option<Guid>)
        ensures
            guid is Some <==> is_guid_text(s@),
            guid matches Some(g) ==> g@ == guid_text_bytes(s@),
    {
        let mut digits: Vec<u8> = Vec::new();
        let ghost not_dash = |c: char| c != '-';
        for c in it: s.chars()
            invariant
                it.seq() == s@,
                not_dash == (|c: char| c != '-'),
                digits@.len() == s@.take(it.index()).filter(not_dash).len(),
                forall|i: int|
                    0 <= i < digits@.len() ==> hex_value(
                        #[trigger] s@.take(it.index()).filter(not_dash)[i],
                    ) == Some(digits@[i]),
        {
            reveal(Seq::filter);
            assert(s@.take(it.index() + 1).drop_last() =~= s@.take(it.index()));
            if c != '-' {
                match hex_digit(c) {
                    Some(v) => {
                        digits.push(v);
                    },
                    None => {
                        proof {
                            assert(s@[it.index()] == c);
                            s@.lemma_filter_contains(not_dash, it.index());
                        }
                        return None;
                    },
                }
            }
        }
        assert(s@.take(s@.len() as int) =~= s@);
        if digits.len() != 32 {
            return None;
        }
        let mut out: [u8; 16] = [0u8; 16];
        let mut i: usize = 0;
        while i < 16
            invariant
                i <= 16,
                digits@.len() == 32,
                undashed(s@).len() == 32,
                forall|j: int|
                    0 <= j < 32 ==> hex_value(#[trigger] undashed(s@)[j]) == Some(digits@[j]),
                forall|j: int| 0 <= j < i ==> out@[j] == #[trigger] guid_text_bytes(s@)[j],
            decreases 16 - i,
        {
            assert(hex_value(undashed(s@)[2 * i as int]) == Some(digits@[2 * i as int]));
            assert(hex_value(undashed(s@)[2 * i + 1]) == Some(digits@[2 * i + 1]));
            out[i] = digits[2 * i] * 16 + digits[2 * i + 1];
            i += 1;
        }
        let guid: Guid = Guid(out);
        assert(guid@ =~= guid_text_bytes(s@));
        Some(guid)
    }
}

/// A hexadecimal letter in lower case; any other character as it is.
pub open spec fn lower_hex(c: char) -> char {
    if 'A' <= c <= 'F' {
        ((c as u8 - 'A' as u8 + 'a' as u8) as u8) as char
    } else {
        c
    }
}

/// `text` with its hexadecimal letters in lower case.
pub open spec fn lower_hex_text(text: Seq<char>) -> Seq<char> {
    text.map_values(|c: char| lower_hex(c))
}

/// The text of a GUID denotes the same with and without its dashes.
pub proof fn dashes_are_optional(text: Seq<char>)
    ensures
        is_guid_text(undashed(text)) <==> is_guid_text(text),
        guid_text_bytes(undashed(text)) == guid_text_bytes(text),
{
    lemma_undashed_twice(text);
}

proof fn lemma_undashed_twice(text: Seq<char>)
    ensures
        undashed(undashed(text)) == undashed(text),
    decreases text.len(),
{
    reveal(Seq::filter);
    if text.len() > 0 {
        let init = text.drop_last();
        lemma_undashed_twice(init);
        if text.last() != '-' {
            assert(undashed(init).push(text.last()).drop_last() =~= undashed(init));
        }
    }
}

/// The text of a GUID denotes the same in upper and in lower case.
pub proof fn case_does_not_matter(text: Seq<char>)
    ensures
        is_guid_text(lower_hex_text(text)) <==> is_guid_text(text),
        is_guid_text(text) ==> guid_text_bytes(lower_hex_text(text)) == guid_text_bytes(text),
{
    lemma_undashed_lower(text);
    let plain = undashed(text);
    let lower = undashed(lower_hex_text(text));
    assert forall|i: int| 0 <= i < plain.len() implies hex_value(#[trigger] lower[i]) == hex_value(
        plain[i],
    ) by {
        assert(lower[i] == lower_hex(plain[i]));
    }
    if is_guid_text(text) {
        assert(guid_text_bytes(lower_hex_text(text)) =~= guid_text_bytes(text));
    }
    if is_guid_text(lower_hex_text(text)) {
        assert forall|i: int| 0 <= i < 32 implies hex_value(#[trigger] plain[i]) is Some by {
            assert(hex_value(lower[i]) is Some);
        }
    }
}

proof fn lemma_undashed_lower(text: Seq<char>)
    ensures
        undashed(lower_hex_text(text)) == lower_hex_text(undashed(text)),
    decreases text.len(),
{
    reveal(Seq::filter);
    if text.len() > 0 {
        let init = text.drop_last();
        lemma_undashed_lower(init);
        assert(lower_hex_text(text).drop_last() =~= lower_hex_text(init));
        assert(lower_hex_text(text).last() == lower_hex(text.last()));
        assert(lower_hex(text.last()) == '-' <==> text.last() == '-');
        assert(undashed(lower_hex_text(text)) =~= lower_hex_text(undashed(text)));
    } else {
        assert(undashed(lower_hex_text(text)) =~= lower_hex_text(undashed(text)));
    }
}

/// Two GUIDs read from texts are equal exactly if the texts have the same
/// digits, so that matching by GUID is matching by text.
pub proof fn equal_guids_have_equal_digits(first: Seq<char>, second: Seq<char>)
    requires
        is_guid_text(first),
        is_guid_text(second),
    ensures
        guid_text_bytes(first) == guid_text_bytes(second) <==> forall|i: int|
            0 <= i < 32 ==> hex_value(#[trigger] undashed(first)[i]) == hex_value(
                undashed(second)[i],
            ),
{
    let (a, b) = (undashed(first), undashed(second));
    assert forall|i: int| 0 <= i < 32 implies (hex_value(#[trigger] a[i])->0) < 16 && (hex_value(
        b[i],
    )->0) < 16 by {
        assert(hex_value(a[i]) is Some && hex_value(b[i]) is Some);
    }
    if guid_text_bytes(first) == guid_text_bytes(second) {
        assert forall|i: int| 0 <= i < 32 implies hex_value(#[trigger] a[i]) == hex_value(b[i]) by {
            let k = i / 2;
            assert(guid_text_bytes(first)[k] == guid_text_bytes(second)[k]);
            assert(hex_value(a[2 * k]) is Some && hex_value(b[2 * k]) is Some);
            assert(hex_value(a[2 * k + 1]) is Some && hex_value(b[2 * k + 1]) is Some);
            assert(hex_value(a[i]) is Some && hex_value(b[i]) is Some);
            assert(i == 2 * k || i == 2 * k + 1);
        }
    }
    if forall|i: int| 0 <= i < 32 ==> hex_value(#[trigger] a[i]) == hex_value(b[i]) {
        assert(guid_text_bytes(first) =~= guid_text_bytes(second));
    }
}

/// Each hexadecimal digit, a letter in either case, has its value in base 16, and
/// no other character has one.
pub proof fn hex_digits_have_their_values(c: char)
    ensures
        hex_value('0') == Some(0u8),
        hex_value('1') == Some(1u8),
        hex_value('2') == Some(2u8),
        hex_value('3') == Some(3u8),
        hex_value('4') == Some(4u8),
        hex_value('5') == Some(5u8),
        hex_value('6') == Some(6u8),
        hex_value('7') == Some(7u8),
        hex_value('8') == Some(8u8),
        hex_value('9') == Some(9u8),
        hex_value('a') == Some(10u8) && hex_value('A') == Some(10u8),
        hex_value('b') == Some(11u8) && hex_value('B') == Some(11u8),
        hex_value('c') == Some(12u8) && hex_value('C') == Some(12u8),
        hex_value('d') == Some(13u8) && hex_value('D') == Some(13u8),
        hex_value('e') == Some(14u8) && hex_value('E') == Some(14u8),
        hex_value('f') == Some(15u8) && hex_value('F') == Some(15u8),
        hex_value(c) is Some <==> '0' <= c <= '9' || 'a' <= c <= 'f' || 'A' <= c <= 'F',
{
}

proof fn lemma_undashed_add(a: Seq<char>, b: Seq<char>)
    ensures
        undashed(a + b) == undashed(a) + undashed(b),
{
    Seq::filter_distributes_over_add(a, b, |c: char| c != '-');
}

proof fn lemma_undashed_plain(text: Seq<char>)
    requires
        forall|i: int| 0 <= i < text.len() ==> #[trigger] text[i] != '-',
    ensures
        undashed(text) == text,
    decreases text.len(),
{
    reveal(Seq::filter);
    if text.len() > 0 {
        lemma_undashed_plain(text.drop_last());
        assert(text.drop_last().push(text.last()) =~= text);
    }
}

/// A dash put in anywhere changes nothing, and a text without dashes is read
/// as it is.
pub proof fn dashes_are_skipped(text: Seq<char>, at: int)
    requires
        0 <= at <= text.len(),
    ensures
        undashed(text.insert(at, '-')) == undashed(text),
        is_guid_text(text.insert(at, '-')) == is_guid_text(text),
        guid_text_bytes(text.insert(at, '-')) == guid_text_bytes(text),
        (forall|i: int| 0 <= i < text.len() ==> #[trigger] text[i] != '-') ==> undashed(text)
            == text,
{
    let (front, back) = (text.subrange(0, at), text.subrange(at, text.len() as int));
    let dash = seq!['-'];
    reveal(Seq::filter);
    assert(dash.drop_last() =~= Seq::empty());
    assert(undashed(dash.drop_last()) =~= Seq::empty());
    assert(undashed(dash) =~= Seq::empty());
    assert(text.insert(at, '-') =~= (front + dash) + back);
    assert(text =~= front + back);
    lemma_undashed_add(front, back);
    lemma_undashed_add(front, dash);
    lemma_undashed_add(front + dash, back);
    assert(undashed(front) + undashed(dash) =~= undashed(front));
    if forall|i: int| 0 <= i < text.len() ==> #[trigger] text[i] != '-' {
        lemma_undashed_plain(text);
    }
}

/// A text without dashes is that of a GUID exactly if it is 32 characters long
/// and each of them is a digit or a letter from A to F of either case.
pub proof fn guid_text_is_32_digits(text: Seq<char>)
    requires
        forall|i: int| 0 <= i < text.len() ==> #[trigger] text[i] != '-',
    ensures
        is_guid_text(text) <==> text.len() == 32 && forall|i: int|
            0 <= i < text.len() ==> '0' <= #[trigger] text[i] <= '9' || 'a' <= text[i] <= 'f' || 'A'
                <= text[i] <= 'F',
{
    lemma_undashed_plain(text);
    if is_guid_text(text) {
        assert forall|i: int| 0 <= i < text.len() implies '0' <= #[trigger] text[i] <= '9' || 'a'
            <= text[i] <= 'f' || 'A' <= text[i] <= 'F' by {
            assert(hex_value(undashed(text)[i]) is Some);
        }
    }
}

/// Sixteen bytes written as hexadecimal text, two digits to a byte with the
/// high one first, are read back as the same bytes. A digit below ten is
/// written as a numeral, one from ten up as a letter of either case.
pub proof fn written_bytes_are_read_back(text: Seq<char>, bytes: Seq<u8>)
    requires
        bytes.len() == 16,
        text.len() == 32,
        forall|i: int|
            0 <= i < 16 ==> {
                let (high, low) = ((#[trigger] bytes[i]) / 16, bytes[i] % 16);
                let (first, second) = (text[2 * i] as int, text[2 * i + 1] as int);
                &&& high < 10 ==> first == '0' as int + high
                &&& high >= 10 ==> first == 'a' as int + high - 10 || first == 'A' as int + high
                    - 10
                &&& low < 10 ==> second == '0' as int + low
                &&& low >= 10 ==> second == 'a' as int + low - 10 || second == 'A' as int + low - 10
            },
    ensures
        is_guid_text(text),
        guid_text_bytes(text) == bytes,
{
    assert forall|i: int| 0 <= i < 32 implies hex_value(#[trigger] text[i]) == Some(
        (if i % 2 == 0 {
            bytes[i / 2] / 16
        } else {
            bytes[i / 2] % 16
        }),
    ) && text[i] != '-' by {
        let k = i / 2;
        let b = bytes[k];
        assert(b / 16 < 16 && b % 16 < 16);
        assert(i == 2 * k || i == 2 * k + 1);
    }
    lemma_undashed_plain(text);
    assert forall|i: int| 0 <= i < 16 implies guid_text_bytes(text)[i] == #[trigger] bytes[i] by {
        assert(hex_value(text[2 * i]) == Some(bytes[i] / 16));
        assert(hex_value(text[2 * i + 1]) == Some(bytes[i] % 16));
    }
    assert(guid_text_bytes(text) =~= bytes);
}

/// Two texts denote the same GUID exactly if they have the same characters,
/// dashes and case aside.
pub proof fn equal_guids_have_equal_text(first: Seq<char>, second: Seq<char>)
    requires
        is_guid_text(first),
        is_guid_text(second),
    ensures
        guid_text_bytes(first) == guid_text_bytes(second) <==> lower_hex_text(undashed(first))
            == lower_hex_text(undashed(second)),
{
    let (a, b) = (undashed(first), undashed(second));
    equal_guids_have_equal_digits(first, second);
    if guid_text_bytes(first) == guid_text_bytes(second) {
        assert forall|i: int| 0 <= i < 32 implies lower_hex(#[trigger] a[i]) == lower_hex(b[i]) by {
            assert(hex_value(a[i]) == hex_value(b[i]) && hex_value(a[i]) is Some);
        }
        assert(lower_hex_text(a) =~= lower_hex_text(b));
    }
    if lower_hex_text(a) == lower_hex_text(b) {
        assert forall|i: int| 0 <= i < 32 implies hex_value(#[trigger] a[i]) == hex_value(b[i]) by {
            assert(lower_hex_text(a)[i] == lower_hex_text(b)[i]);
            assert(hex_value(lower_hex(a[i])) == hex_value(a[i]));
            assert(hex_value(lower_hex(b[i])) == hex_value(b[i]));
        }
    }
}

impl Guid {
    /// A GUID is its sixteen bytes, and GUIDs are equal exactly if all of them
    /// are.
    pub proof fn equal_guids_have_equal_bytes(self, other: Guid)
        ensures
            self@.len() == 16,
            vstd::std_specs::cmp::PartialEqSpec::eq_spec(&self, &other) <==> forall|i: int|
                0 <= i < 16 ==> #[trigger] self@[i] == other@[i],
    {
        if forall|i: int| 0 <= i < 16 ==> #[trigger] self@[i] == other@[i] {
            assert(self@ =~= other@);
        }
    }
}

} // verus!
