use vstd::prelude::*;
use vstd::string::*;
use vstd::utf8::*;

verus! {

/// Texts with the same bytes are the same.
pub proof fn lemma_bytes_tell_texts_apart(a: &str, b: &str)
    ensures
        a.spec_bytes() == b.spec_bytes() ==> a@ == b@,
{
    encode_utf8_decode_utf8(a@);
    encode_utf8_decode_utf8(b@);
}

/// The decimal digit of a number below ten.
pub open spec fn digit(n: nat) -> char {
    ((n + 48) as u8) as char
}

/// A number in decimal notation.
pub open spec fn decimal(n: nat) -> Seq<char>
    decreases n,
{
    if n < 10 {
        seq![digit(n)]
    } else {
        decimal(n / 10).push(digit(n % 10))
    }
}

fn digit_text(n: usize) -> (text: &'static str)
    requires
        n < 10,
    ensures
        text@ == seq![digit(n as nat)],
{
    proof {
        reveal_strlit("0");
        reveal_strlit("1");
        reveal_strlit("2");
        reveal_strlit("3");
        reveal_strlit("4");
        reveal_strlit("5");
        reveal_strlit("6");
        reveal_strlit("7");
        reveal_strlit("8");
        reveal_strlit("9");
    }
    let text = match n {
        0 => "0",
        1 => "1",
        2 => "2",
        3 => "3",
        4 => "4",
        5 => "5",
        6 => "6",
        7 => "7",
        8 => "8",
        _ => "9",
    };
    assert(text@ =~= seq![digit(n as nat)]);
    text
}

/// Writes a number in decimal notation.
pub fn decimal_text(n: usize) -> (text: String)
    ensures
        text@ == decimal(n as nat),
    decreases n,
{
    if n < 10 {
        digit_text(n).to_owned()
    } else {
        let mut text = decimal_text(n / 10);
        let ghost start = text@;
        text.append(digit_text(n % 10));
        assert(text@ =~= start.push(digit((n % 10) as nat)));
        text
    }
}

/// Whether bytes begin with a prefix.
pub fn starts_with(bytes: &[u8], prefix: &[u8]) -> (b: bool)
    ensures
        b == prefix@.is_prefix_of(bytes@),
{
    if bytes.len() < prefix.len() {
        return false;
    }
    let mut i: usize = 0;
    while i < prefix.len()
        invariant
            i <= prefix@.len() <= bytes@.len(),
            forall|k: int| 0 <= k < i ==> bytes@[k] == prefix@[k],
        decreases prefix@.len() - i,
    {
        if bytes[i] != prefix[i] {
            assert(bytes@.subrange(0, prefix@.len() as int)[i as int] != prefix@[i as int]);
            return false;
        }
        i = i + 1;
    }
    assert(prefix@ =~= bytes@.subrange(0, prefix@.len() as int));
    true
}

/// The first position of a byte.
pub open spec fn first_position(bytes: Seq<u8>, byte: u8) -> Option<int> {
    if bytes.contains(byte) {
        Some(bytes.index_of_first(byte)->0)
    } else {
        None
    }
}

/// Finds the first position of a byte.
pub fn find_byte(bytes: &[u8], byte: u8) -> (position: Option<usize>)
    ensures
        match position {
            Some(i) => {
                &&& i < bytes@.len()
                &&& bytes@[i as int] == byte
                &&& forall|k: int| 0 <= k < i ==> bytes@[k] != byte
                &&& first_position(bytes@, byte) == Some(i as int)
            },
            None => !bytes@.contains(byte) && first_position(bytes@, byte) is None,
        },
{
    let mut i: usize = 0;
    while i < bytes.len()
        invariant
            i <= bytes@.len(),
            forall|k: int| 0 <= k < i ==> bytes@[k] != byte,
        decreases bytes@.len() - i,
    {
        if bytes[i] == byte {
            proof {
                assert(bytes@.contains(byte));
                bytes@.index_of_first_ensures(byte);
            }
            return Some(i);
        }
        i = i + 1;
    }
    None
}

/// The number that decimal digits are read as.
pub open spec fn read(text: Seq<char>) -> int
    decreases text.len(),
{
    if text.len() == 0 {
        0
    } else {
        read(text.drop_last()) * 10 + (text.last() as int - '0' as int)
    }
}

/// A number is written in decimal digits that are read as this number, without leading zeros.
pub proof fn law_decimal(n: nat)
    ensures
        read(decimal(n)) == n,
        forall|i: int| 0 <= i < decimal(n).len() ==> '0' <= #[trigger] decimal(n)[i] <= '9',
        decimal(n).len() > 0,
        n > 0 ==> decimal(n)[0] != '0',
        n == 0 ==> decimal(n) == seq!['0'],
    decreases n,
{
    reveal_with_fuel(read, 2);
    if n < 10 {
        assert(seq![digit(n)].drop_last() =~= Seq::<char>::empty());
        assert(seq![digit(n)].last() == digit(n));
        assert(digit(n) as int == n + 48);
    } else {
        law_decimal(n / 10);
        let rest = decimal(n / 10);
        let last = digit(n % 10);
        assert(last as int == n % 10 + 48);
        assert(rest.push(last).drop_last() =~= rest);
        assert(rest.push(last).last() == last);
    }
}

/// The first position of a byte is that of the byte with no such byte before it, and there is none
/// exactly if the byte does not occur.
pub proof fn law_first_position(bytes: Seq<u8>, byte: u8, i: int)
    ensures
        first_position(bytes, byte) == Some(i) <==> 0 <= i < bytes.len() && bytes[i] == byte
            && forall|k: int| 0 <= k < i ==> bytes[k] != byte,
        first_position(bytes, byte) is None <==> forall|k: int|
            0 <= k < bytes.len() ==> bytes[k] != byte,
{
    if bytes.contains(byte) {
        bytes.index_of_first_ensures(byte);
    }
    if 0 <= i < bytes.len() && bytes[i] == byte {
        assert(bytes.contains(byte));
    }
}

} // verus!
