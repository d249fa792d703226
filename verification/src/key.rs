//! Composite cell keys: `"<row id in hex>:<column id in hex>"`.

use vstd::prelude::*;

verus! {

/// The lower-case hexadecimal digit for `d` (for `d < 16`).
pub open spec fn hex_char(d: nat) -> char {
    if d == 0 {
        '0'
    } else if d == 1 {
        '1'
    } else if d == 2 {
        '2'
    } else if d == 3 {
        '3'
    } else if d == 4 {
        '4'
    } else if d == 5 {
        '5'
    } else if d == 6 {
        '6'
    } else if d == 7 {
        '7'
    } else if d == 8 {
        '8'
    } else if d == 9 {
        '9'
    } else if d == 10 {
        'a'
    } else if d == 11 {
        'b'
    } else if d == 12 {
        'c'
    } else if d == 13 {
        'd'
    } else if d == 14 {
        'e'
    } else {
        'f'
    }
}

/// The number that a hexadecimal digit stands for; 16 for any other character.
pub open spec fn hex_digit_value(c: char) -> nat {
    if c == '0' {
        0
    } else if c == '1' {
        1
    } else if c == '2' {
        2
    } else if c == '3' {
        3
    } else if c == '4' {
        4
    } else if c == '5' {
        5
    } else if c == '6' {
        6
    } else if c == '7' {
        7
    } else if c == '8' {
        8
    } else if c == '9' {
        9
    } else if c == 'a' {
        10
    } else if c == 'b' {
        11
    } else if c == 'c' {
        12
    } else if c == 'd' {
        13
    } else if c == 'e' {
        14
    } else if c == 'f' {
        15
    } else {
        16
    }
}

/// `n` in lower-case hexadecimal, without leading zeros; `"0"` for zero.
pub open spec fn hex_digits(n: nat) -> Seq<char>
    decreases n,
{
    if n < 16 {
        seq![hex_char(n)]
    } else {
        hex_digits(n / 16).push(hex_char(n % 16))
    }
}

/// The number that a sequence of hexadecimal digits denotes.
pub open spec fn hex_value(digits: Seq<char>) -> nat
    decreases digits.len(),
{
    if digits.len() == 0 {
        0
    } else {
        hex_value(digits.drop_last()) * 16 + hex_digit_value(digits.last())
    }
}

/// A signed identifier read as the unsigned 64-bit number with the same bits.
pub open spec fn unsigned(id: i64) -> nat {
    if id >= 0 {
        id as nat
    } else {
        (id + 0x1_0000_0000_0000_0000) as nat
    }
}

/// The key under which the cell of row `row_id` and column `col_id` is stored.
pub open spec fn cell_key_spec(row_id: i64, col_id: i64) -> Seq<char> {
    hex_digits(unsigned(row_id)) + seq![':'] + hex_digits(unsigned(col_id))
}

/// Reading back the digits of a number gives the number.
proof fn lemma_hex_value(n: nat)
    ensures
        hex_value(hex_digits(n)) == n,
    decreases n,
{
    if n < 16 {
        assert(hex_digits(n).drop_last() =~= Seq::<char>::empty());
        assert(hex_value(hex_digits(n).drop_last()) == 0);
    } else {
        lemma_hex_value(n / 16);
        assert(hex_digits(n).drop_last() =~= hex_digits(n / 16));
    }
}

/// The digits of a number are hexadecimal digits, so none of them is the separator.
proof fn lemma_hex_digits_chars(n: nat)
    ensures
        hex_digits(n).len() >= 1,
        forall|i: int| 0 <= i < hex_digits(n).len() ==> hex_digit_value(#[trigger] hex_digits(n)[i]) < 16,
    decreases n,
{
    if n >= 16 {
        lemma_hex_digits_chars(n / 16);
    }
}

/// Two cells have the same key only if they are the same cell.
pub proof fn lemma_cell_key_injective(row_a: i64, col_a: i64, row_b: i64, col_b: i64)
    requires
        cell_key_spec(row_a, col_a) == cell_key_spec(row_b, col_b),
    ensures
        row_a == row_b,
        col_a == col_b,
{
    let ra = hex_digits(unsigned(row_a));
    let rb = hex_digits(unsigned(row_b));
    let ca = hex_digits(unsigned(col_a));
    let cb = hex_digits(unsigned(col_b));
    let ka = cell_key_spec(row_a, col_a);
    let kb = cell_key_spec(row_b, col_b);
    lemma_hex_digits_chars(unsigned(row_a));
    lemma_hex_digits_chars(unsigned(row_b));
    lemma_hex_digits_chars(unsigned(col_a));
    lemma_hex_digits_chars(unsigned(col_b));
    assert(ka[ra.len() as int] == ':');
    assert(kb[rb.len() as int] == ':');
    if ra.len() < rb.len() {
        assert(kb[ra.len() as int] == rb[ra.len() as int]);
    }
    if rb.len() < ra.len() {
        assert(ka[rb.len() as int] == ra[rb.len() as int]);
    }
    assert(ra.len() == rb.len());
    assert(ra =~= ka.subrange(0, ra.len() as int));
    assert(rb =~= kb.subrange(0, rb.len() as int));
    assert(ca =~= ka.subrange(ra.len() as int + 1, ka.len() as int));
    assert(cb =~= kb.subrange(rb.len() as int + 1, kb.len() as int));
    lemma_hex_value(unsigned(row_a));
    lemma_hex_value(unsigned(row_b));
    lemma_hex_value(unsigned(col_a));
    lemma_hex_value(unsigned(col_b));
}

/// Appends one character to `text` (`String::push`).
#[verifier::external_body]
fn push_char(text: &mut String, c: char)
    ensures
        final(text)@ == old(text)@.push(c),
{
    text.push(c);
}

fn hex_char_of(d: u8) -> (c: char)
    requires
        d < 16,
    ensures
        c == hex_char(d as nat),
{
    if d == 0 {
        '0'
    } else if d == 1 {
        '1'
    } else if d == 2 {
        '2'
    } else if d == 3 {
        '3'
    } else if d == 4 {
        '4'
    } else if d == 5 {
        '5'
    } else if d == 6 {
        '6'
    } else if d == 7 {
        '7'
    } else if d == 8 {
        '8'
    } else if d == 9 {
        '9'
    } else if d == 10 {
        'a'
    } else if d == 11 {
        'b'
    } else if d == 12 {
        'c'
    } else if d == 13 {
        'd'
    } else if d == 14 {
        'e'
    } else {
        'f'
    }
}

/// Appends `n` in hexadecimal to `text`.
fn push_hex(text: &mut String, n: u64)
    ensures
        final(text)@ == old(text)@ + hex_digits(n as nat),
    decreases n,
{
    if n >= 16 {
        push_hex(text, n / 16);
    }
    push_char(text, hex_char_of((n % 16) as u8));
}

fn unsigned_of(id: i64) -> (n: u64)
    ensures
        n == unsigned(id),
{
    if id >= 0 {
        id as u64
    } else {
        ((id - i64::MIN) as u64) + 0x8000_0000_0000_0000u64
    }
}

/// Builds the key under which the cell of row `row_id` and column `col_id` is stored.
pub fn cell_key(row_id: i64, col_id: i64) -> (key: String)
    ensures
        key@ == cell_key_spec(row_id, col_id),
{
    let mut key = String::new();
    push_hex(&mut key, unsigned_of(row_id));
    push_char(&mut key, ':');
    push_hex(&mut key, unsigned_of(col_id));
    key
}

} // verus!
