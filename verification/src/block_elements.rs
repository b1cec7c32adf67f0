//! The names of the elements that CommonMark treats as blocks: those of
//! the first and the sixth kind of [HTML block](https://spec.commonmark.org/0.31.2/#html-blocks)
//! start condition, all written in small letters.

use vstd::prelude::*;

verus! {

/// Whether `a` and `b` hold the same characters.
pub fn same_chars(a: &[char], b: &[char]) -> (r: bool)
    ensures
        r == (a@ == b@),
{
    if a.len() != b.len() {
        return false;
    }
    let mut i: usize = 0;
    while i < a.len()
        invariant
            a.len() == b.len(),
            i <= a.len(),
            forall|j: int| 0 <= j < i ==> a@[j] == b@[j],
        decreases a.len() - i,
    {
        if a[i] != b[i] {
            return false;
        }
        i += 1;
    }
    assert(a@ =~= b@);
    true
}

/// Whether `name` is that of an element whose content is raw text, the first
/// start condition's `pre`, `script`, `style` and `textarea`.
pub open spec fn is_raw_text_name(name: Seq<char>) -> bool {
    ||| name == seq!['p', 'r', 'e']
    ||| name == seq!['s', 'c', 'r', 'i', 'p', 't']
    ||| name == seq!['s', 't', 'y', 'l', 'e']
    ||| name == seq!['t', 'e', 'x', 't', 'a', 'r', 'e', 'a']
}

/// Whether `name` is one of the sixth start condition's block-level elements.
pub open spec fn is_type_6_name(name: Seq<char>) -> bool {
    ||| name == seq!['a', 'd', 'd', 'r', 'e', 's', 's']
    ||| name == seq!['a', 'r', 't', 'i', 'c', 'l', 'e']
    ||| name == seq!['a', 's', 'i', 'd', 'e']
    ||| name == seq!['b', 'a', 's', 'e']
    ||| name == seq!['b', 'a', 's', 'e', 'f', 'o', 'n', 't']
    ||| name == seq!['b', 'l', 'o', 'c', 'k', 'q', 'u', 'o', 't', 'e']
    ||| name == seq!['b', 'o', 'd', 'y']
    ||| name == seq!['c', 'a', 'p', 't', 'i', 'o', 'n']
    ||| name == seq!['c', 'e', 'n', 't', 'e', 'r']
    ||| name == seq!['c', 'o', 'l']
    ||| name == seq!['c', 'o', 'l', 'g', 'r', 'o', 'u', 'p']
    ||| name == seq!['d', 'd']
    ||| name == seq!['d', 'e', 't', 'a', 'i', 'l', 's']
    ||| name == seq!['d', 'i', 'a', 'l', 'o', 'g']
    ||| name == seq!['d', 'i', 'r']
    ||| name == seq!['d', 'i', 'v']
    ||| name == seq!['d', 'l']
    ||| name == seq!['d', 't']
    ||| name == seq!['f', 'i', 'e', 'l', 'd', 's', 'e', 't']
    ||| name == seq!['f', 'i', 'g', 'c', 'a', 'p', 't', 'i', 'o', 'n']
    ||| name == seq!['f', 'i', 'g', 'u', 'r', 'e']
    ||| name == seq!['f', 'o', 'o', 't', 'e', 'r']
    ||| name == seq!['f', 'o', 'r', 'm']
    ||| name == seq!['f', 'r', 'a', 'm', 'e']
    ||| name == seq!['f', 'r', 'a', 'm', 'e', 's', 'e', 't']
    ||| name == seq!['h', '1']
    ||| name == seq!['h', '2']
    ||| name == seq!['h', '3']
    ||| name == seq!['h', '4']
    ||| name == seq!['h', '5']
    ||| name == seq!['h', '6']
    ||| name == seq!['h', 'e', 'a', 'd']
    ||| name == seq!['h', 'e', 'a', 'd', 'e', 'r']
    ||| name == seq!['h', 'r']
    ||| name == seq!['h', 't', 'm', 'l']
    ||| name == seq!['i', 'f', 'r', 'a', 'm', 'e']
    ||| name == seq!['l', 'e', 'g', 'e', 'n', 'd']
    ||| name == seq!['l', 'i']
    ||| name == seq!['l', 'i', 'n', 'k']
    ||| name == seq!['m', 'a', 'i', 'n']
    ||| name == seq!['m', 'e', 'n', 'u']
    ||| name == seq!['m', 'e', 'n', 'u', 'i', 't', 'e', 'm']
    ||| name == seq!['n', 'a', 'v']
    ||| name == seq!['n', 'o', 'f', 'r', 'a', 'm', 'e', 's']
    ||| name == seq!['o', 'l']
    ||| name == seq!['o', 'p', 't', 'g', 'r', 'o', 'u', 'p']
    ||| name == seq!['o', 'p', 't', 'i', 'o', 'n']
    ||| name == seq!['p']
    ||| name == seq!['p', 'a', 'r', 'a', 'm']
    ||| name == seq!['s', 'e', 'a', 'r', 'c', 'h']
    ||| name == seq!['s', 'e', 'c', 't', 'i', 'o', 'n']
    ||| name == seq!['s', 'u', 'm', 'm', 'a', 'r', 'y']
    ||| name == seq!['t', 'a', 'b', 'l', 'e']
    ||| name == seq!['t', 'b', 'o', 'd', 'y']
    ||| name == seq!['t', 'd']
    ||| name == seq!['t', 'f', 'o', 'o', 't']
    ||| name == seq!['t', 'h']
    ||| name == seq!['t', 'h', 'e', 'a', 'd']
    ||| name == seq!['t', 'i', 't', 'l', 'e']
    ||| name == seq!['t', 'r']
    ||| name == seq!['t', 'r', 'a', 'c', 'k']
    ||| name == seq!['u', 'l']
}

/// Whether `name` is that of a block element: one of the raw text elements or
/// of the sixth condition's list.
pub open spec fn is_block_name(name: Seq<char>) -> bool {
    is_raw_text_name(name) || is_type_6_name(name)
}

/// Whether `name` is that of a raw text element.
pub fn is_type_1_element(name: &[char]) -> (r: bool)
    ensures
        r == is_raw_text_name(name@),
{
    let w0: [char; 3] = ['p', 'r', 'e'];
    assert(w0@ =~= seq!['p', 'r', 'e']);
    let w1: [char; 6] = ['s', 'c', 'r', 'i', 'p', 't'];
    assert(w1@ =~= seq!['s', 'c', 'r', 'i', 'p', 't']);
    let w2: [char; 5] = ['s', 't', 'y', 'l', 'e'];
    assert(w2@ =~= seq!['s', 't', 'y', 'l', 'e']);
    let w3: [char; 8] = ['t', 'e', 'x', 't', 'a', 'r', 'e', 'a'];
    assert(w3@ =~= seq!['t', 'e', 'x', 't', 'a', 'r', 'e', 'a']);
    same_chars(name, &w0)
        || same_chars(name, &w1)
        || same_chars(name, &w2)
        || same_chars(name, &w3)
}

/// Whether `name` is one of the sixth start condition's block-level elements.
pub fn is_type_6_element(name: &[char]) -> (r: bool)
    ensures
        r == is_type_6_name(name@),
{
    let w0: [char; 7] = ['a', 'd', 'd', 'r', 'e', 's', 's'];
    assert(w0@ =~= seq!['a', 'd', 'd', 'r', 'e', 's', 's']);
    let w1: [char; 7] = ['a', 'r', 't', 'i', 'c', 'l', 'e'];
    assert(w1@ =~= seq!['a', 'r', 't', 'i', 'c', 'l', 'e']);
    let w2: [char; 5] = ['a', 's', 'i', 'd', 'e'];
    assert(w2@ =~= seq!['a', 's', 'i', 'd', 'e']);
    let w3: [char; 4] = ['b', 'a', 's', 'e'];
    assert(w3@ =~= seq!['b', 'a', 's', 'e']);
    let w4: [char; 8] = ['b', 'a', 's', 'e', 'f', 'o', 'n', 't'];
    assert(w4@ =~= seq!['b', 'a', 's', 'e', 'f', 'o', 'n', 't']);
    let w5: [char; 10] = ['b', 'l', 'o', 'c', 'k', 'q', 'u', 'o', 't', 'e'];
    assert(w5@ =~= seq!['b', 'l', 'o', 'c', 'k', 'q', 'u', 'o', 't', 'e']);
    let w6: [char; 4] = ['b', 'o', 'd', 'y'];
    assert(w6@ =~= seq!['b', 'o', 'd', 'y']);
    let w7: [char; 7] = ['c', 'a', 'p', 't', 'i', 'o', 'n'];
    assert(w7@ =~= seq!['c', 'a', 'p', 't', 'i', 'o', 'n']);
    let w8: [char; 6] = ['c', 'e', 'n', 't', 'e', 'r'];
    assert(w8@ =~= seq!['c', 'e', 'n', 't', 'e', 'r']);
    let w9: [char; 3] = ['c', 'o', 'l'];
    assert(w9@ =~= seq!['c', 'o', 'l']);
    let w10: [char; 8] = ['c', 'o', 'l', 'g', 'r', 'o', 'u', 'p'];
    assert(w10@ =~= seq!['c', 'o', 'l', 'g', 'r', 'o', 'u', 'p']);
    let w11: [char; 2] = ['d', 'd'];
    assert(w11@ =~= seq!['d', 'd']);
    let w12: [char; 7] = ['d', 'e', 't', 'a', 'i', 'l', 's'];
    assert(w12@ =~= seq!['d', 'e', 't', 'a', 'i', 'l', 's']);
    let w13: [char; 6] = ['d', 'i', 'a', 'l', 'o', 'g'];
    assert(w13@ =~= seq!['d', 'i', 'a', 'l', 'o', 'g']);
    let w14: [char; 3] = ['d', 'i', 'r'];
    assert(w14@ =~= seq!['d', 'i', 'r']);
    let w15: [char; 3] = ['d', 'i', 'v'];
    assert(w15@ =~= seq!['d', 'i', 'v']);
    let w16: [char; 2] = ['d', 'l'];
    assert(w16@ =~= seq!['d', 'l']);
    let w17: [char; 2] = ['d', 't'];
    assert(w17@ =~= seq!['d', 't']);
    let w18: [char; 8] = ['f', 'i', 'e', 'l', 'd', 's', 'e', 't'];
    assert(w18@ =~= seq!['f', 'i', 'e', 'l', 'd', 's', 'e', 't']);
    let w19: [char; 10] = ['f', 'i', 'g', 'c', 'a', 'p', 't', 'i', 'o', 'n'];
    assert(w19@ =~= seq!['f', 'i', 'g', 'c', 'a', 'p', 't', 'i', 'o', 'n']);
    let w20: [char; 6] = ['f', 'i', 'g', 'u', 'r', 'e'];
    assert(w20@ =~= seq!['f', 'i', 'g', 'u', 'r', 'e']);
    let w21: [char; 6] = ['f', 'o', 'o', 't', 'e', 'r'];
    assert(w21@ =~= seq!['f', 'o', 'o', 't', 'e', 'r']);
    let w22: [char; 4] = ['f', 'o', 'r', 'm'];
    assert(w22@ =~= seq!['f', 'o', 'r', 'm']);
    let w23: [char; 5] = ['f', 'r', 'a', 'm', 'e'];
    assert(w23@ =~= seq!['f', 'r', 'a', 'm', 'e']);
    let w24: [char; 8] = ['f', 'r', 'a', 'm', 'e', 's', 'e', 't'];
    assert(w24@ =~= seq!['f', 'r', 'a', 'm', 'e', 's', 'e', 't']);
    let w25: [char; 2] = ['h', '1'];
    assert(w25@ =~= seq!['h', '1']);
    let w26: [char; 2] = ['h', '2'];
    assert(w26@ =~= seq!['h', '2']);
    let w27: [char; 2] = ['h', '3'];
    assert(w27@ =~= seq!['h', '3']);
    let w28: [char; 2] = ['h', '4'];
    assert(w28@ =~= seq!['h', '4']);
    let w29: [char; 2] = ['h', '5'];
    assert(w29@ =~= seq!['h', '5']);
    let w30: [char; 2] = ['h', '6'];
    assert(w30@ =~= seq!['h', '6']);
    let w31: [char; 4] = ['h', 'e', 'a', 'd'];
    assert(w31@ =~= seq!['h', 'e', 'a', 'd']);
    let w32: [char; 6] = ['h', 'e', 'a', 'd', 'e', 'r'];
    assert(w32@ =~= seq!['h', 'e', 'a', 'd', 'e', 'r']);
    let w33: [char; 2] = ['h', 'r'];
    assert(w33@ =~= seq!['h', 'r']);
    let w34: [char; 4] = ['h', 't', 'm', 'l'];
    assert(w34@ =~= seq!['h', 't', 'm', 'l']);
    let w35: [char; 6] = ['i', 'f', 'r', 'a', 'm', 'e'];
    assert(w35@ =~= seq!['i', 'f', 'r', 'a', 'm', 'e']);
    let w36: [char; 6] = ['l', 'e', 'g', 'e', 'n', 'd'];
    assert(w36@ =~= seq!['l', 'e', 'g', 'e', 'n', 'd']);
    let w37: [char; 2] = ['l', 'i'];
    assert(w37@ =~= seq!['l', 'i']);
    let w38: [char; 4] = ['l', 'i', 'n', 'k'];
    assert(w38@ =~= seq!['l', 'i', 'n', 'k']);
    let w39: [char; 4] = ['m', 'a', 'i', 'n'];
    assert(w39@ =~= seq!['m', 'a', 'i', 'n']);
    let w40: [char; 4] = ['m', 'e', 'n', 'u'];
    assert(w40@ =~= seq!['m', 'e', 'n', 'u']);
    let w41: [char; 8] = ['m', 'e', 'n', 'u', 'i', 't', 'e', 'm'];
    assert(w41@ =~= seq!['m', 'e', 'n', 'u', 'i', 't', 'e', 'm']);
    let w42: [char; 3] = ['n', 'a', 'v'];
    assert(w42@ =~= seq!['n', 'a', 'v']);
    let w43: [char; 8] = ['n', 'o', 'f', 'r', 'a', 'm', 'e', 's'];
    assert(w43@ =~= seq!['n', 'o', 'f', 'r', 'a', 'm', 'e', 's']);
    let w44: [char; 2] = ['o', 'l'];
    assert(w44@ =~= seq!['o', 'l']);
    let w45: [char; 8] = ['o', 'p', 't', 'g', 'r', 'o', 'u', 'p'];
    assert(w45@ =~= seq!['o', 'p', 't', 'g', 'r', 'o', 'u', 'p']);
    let w46: [char; 6] = ['o', 'p', 't', 'i', 'o', 'n'];
    assert(w46@ =~= seq!['o', 'p', 't', 'i', 'o', 'n']);
    let w47: [char; 1] = ['p'];
    assert(w47@ =~= seq!['p']);
    let w48: [char; 5] = ['p', 'a', 'r', 'a', 'm'];
    assert(w48@ =~= seq!['p', 'a', 'r', 'a', 'm']);
    let w49: [char; 6] = ['s', 'e', 'a', 'r', 'c', 'h'];
    assert(w49@ =~= seq!['s', 'e', 'a', 'r', 'c', 'h']);
    let w50: [char; 7] = ['s', 'e', 'c', 't', 'i', 'o', 'n'];
    assert(w50@ =~= seq!['s', 'e', 'c', 't', 'i', 'o', 'n']);
    let w51: [char; 7] = ['s', 'u', 'm', 'm', 'a', 'r', 'y'];
    assert(w51@ =~= seq!['s', 'u', 'm', 'm', 'a', 'r', 'y']);
    let w52: [char; 5] = ['t', 'a', 'b', 'l', 'e'];
    assert(w52@ =~= seq!['t', 'a', 'b', 'l', 'e']);
    let w53: [char; 5] = ['t', 'b', 'o', 'd', 'y'];
    assert(w53@ =~= seq!['t', 'b', 'o', 'd', 'y']);
    let w54: [char; 2] = ['t', 'd'];
    assert(w54@ =~= seq!['t', 'd']);
    let w55: [char; 5] = ['t', 'f', 'o', 'o', 't'];
    assert(w55@ =~= seq!['t', 'f', 'o', 'o', 't']);
    let w56: [char; 2] = ['t', 'h'];
    assert(w56@ =~= seq!['t', 'h']);
    let w57: [char; 5] = ['t', 'h', 'e', 'a', 'd'];
    assert(w57@ =~= seq!['t', 'h', 'e', 'a', 'd']);
    let w58: [char; 5] = ['t', 'i', 't', 'l', 'e'];
    assert(w58@ =~= seq!['t', 'i', 't', 'l', 'e']);
    let w59: [char; 2] = ['t', 'r'];
    assert(w59@ =~= seq!['t', 'r']);
    let w60: [char; 5] = ['t', 'r', 'a', 'c', 'k'];
    assert(w60@ =~= seq!['t', 'r', 'a', 'c', 'k']);
    let w61: [char; 2] = ['u', 'l'];
    assert(w61@ =~= seq!['u', 'l']);
    same_chars(name, &w0)
        || same_chars(name, &w1)
        || same_chars(name, &w2)
        || same_chars(name, &w3)
        || same_chars(name, &w4)
        || same_chars(name, &w5)
        || same_chars(name, &w6)
        || same_chars(name, &w7)
        || same_chars(name, &w8)
        || same_chars(name, &w9)
        || same_chars(name, &w10)
        || same_chars(name, &w11)
        || same_chars(name, &w12)
        || same_chars(name, &w13)
        || same_chars(name, &w14)
        || same_chars(name, &w15)
        || same_chars(name, &w16)
        || same_chars(name, &w17)
        || same_chars(name, &w18)
        || same_chars(name, &w19)
        || same_chars(name, &w20)
        || same_chars(name, &w21)
        || same_chars(name, &w22)
        || same_chars(name, &w23)
        || same_chars(name, &w24)
        || same_chars(name, &w25)
        || same_chars(name, &w26)
        || same_chars(name, &w27)
        || same_chars(name, &w28)
        || same_chars(name, &w29)
        || same_chars(name, &w30)
        || same_chars(name, &w31)
        || same_chars(name, &w32)
        || same_chars(name, &w33)
        || same_chars(name, &w34)
        || same_chars(name, &w35)
        || same_chars(name, &w36)
        || same_chars(name, &w37)
        || same_chars(name, &w38)
        || same_chars(name, &w39)
        || same_chars(name, &w40)
        || same_chars(name, &w41)
        || same_chars(name, &w42)
        || same_chars(name, &w43)
        || same_chars(name, &w44)
        || same_chars(name, &w45)
        || same_chars(name, &w46)
        || same_chars(name, &w47)
        || same_chars(name, &w48)
        || same_chars(name, &w49)
        || same_chars(name, &w50)
        || same_chars(name, &w51)
        || same_chars(name, &w52)
        || same_chars(name, &w53)
        || same_chars(name, &w54)
        || same_chars(name, &w55)
        || same_chars(name, &w56)
        || same_chars(name, &w57)
        || same_chars(name, &w58)
        || same_chars(name, &w59)
        || same_chars(name, &w60)
        || same_chars(name, &w61)
}

/// Whether `name` is that of a block element, raw text or block-level.
pub fn is_block_element(name: &[char]) -> (r: bool)
    ensures
        r == is_block_name(name@),
{
    is_type_1_element(name) || is_type_6_element(name)
}

} // verus!
