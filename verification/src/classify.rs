//! The display category of a key: unassigned, a switch to another layer, a
//! special function, an ordinary key of the base layer, or a key of a higher
//! layer, which takes that layer's colour.
use vstd::prelude::*;
use crate::keys::{is_blank, is_blank_chars};
use crate::text::{
    chars_of, copy_range, find_char, lemma_position_bounds, position, starts_with, trim, trimmed,
};

verus! {

/// The display category of a key.
#[derive(Clone, Copy, Debug, PartialEq, Eq, Structural)]
pub enum KeyClass {
    /// An unassigned key.
    Empty,
    /// A key of the base layer that switches to the layer given.
    LayerRef(usize),
    /// A key of the base layer with a lighting or system function.
    Special,
    /// Any other key of the base layer.
    Normal,
    /// An assigned key of the layer given, which is not the base layer.
    LayerColor(usize),
}

/// A decimal digit.
pub open spec fn is_digit(c: char) -> bool {
    0x30 <= c as u32 <= 0x39
}

/// The value of a decimal digit.
pub open spec fn digit_value(c: char) -> nat {
    (c as u32 - 0x30) as nat
}

/// The number that a sequence of decimal digits denotes.
pub open spec fn digits_value(s: Seq<char>) -> nat
    decreases s.len(),
{
    if s.len() == 0 {
        0
    } else {
        digits_value(s.drop_last()) * 10 + digit_value(s.last())
    }
}

/// Whether every character is a decimal digit.
pub open spec fn all_digits(s: Seq<char>) -> bool {
    forall|i: int| 0 <= i < s.len() ==> is_digit(#[trigger] s[i])
}

/// The unsigned number that a text denotes: an optional plus sign, then one
/// or more decimal digits and nothing else, with a value that fits `usize`.
pub open spec fn parse_number(s: Seq<char>) -> Option<usize> {
    let d = if s.len() > 0 && s[0] == '+' {
        s.drop_first()
    } else {
        s
    };
    if d.len() > 0 && all_digits(d) && digits_value(d) <= usize::MAX {
        Some(digits_value(d) as usize)
    } else {
        None
    }
}

/// A switch whose only argument is the layer.
pub open spec fn is_single_switch(key: Seq<char>) -> bool {
    ||| "MO("@.is_prefix_of(key)
    ||| "TO("@.is_prefix_of(key)
    ||| "TG("@.is_prefix_of(key)
    ||| "TT("@.is_prefix_of(key)
    ||| "OSL("@.is_prefix_of(key)
    ||| "DF("@.is_prefix_of(key)
}

/// A switch whose first argument of two is the layer.
pub open spec fn is_pair_switch(key: Seq<char>) -> bool {
    "LT("@.is_prefix_of(key) || "LM("@.is_prefix_of(key)
}

/// A lighting or system function.
pub open spec fn is_special(key: Seq<char>) -> bool {
    ||| "RGB_"@.is_prefix_of(key)
    ||| "BL_"@.is_prefix_of(key)
    ||| "RESET"@.is_prefix_of(key)
    ||| "QK_"@.is_prefix_of(key)
}

/// The layer that a layer switch names. For a switch with one argument it is
/// the text between the first `(` and the first `)`; for one with two, the
/// trimmed text between the first `(` and the first `,`. `None` where the key
/// is no layer switch, the closing character is missing, or the text is no
/// number.
pub open spec fn layer_number(key: Seq<char>) -> Option<usize> {
    let start = position(key, '(') as int + 1;
    if is_single_switch(key) {
        let end = position(key, ')') as int;
        if end < key.len() {
            parse_number(key.subrange(start, end))
        } else {
            None
        }
    } else if is_pair_switch(key) {
        let end = position(key, ',') as int;
        if end < key.len() {
            parse_number(trim(key.subrange(start, end)))
        } else {
            None
        }
    } else {
        None
    }
}

/// The category of a key on a layer. An unassigned key is `Empty` on every
/// layer. On the base layer a layer switch with a readable number is a
/// `LayerRef`, a special function is `Special`, anything else `Normal`. On
/// every other layer an assigned key is a `LayerColor` of that layer.
pub open spec fn classify_spec(key: Seq<char>, layer_index: usize) -> KeyClass {
    if is_blank(key) {
        KeyClass::Empty
    } else if layer_index == 0 {
        match layer_number(key) {
            Some(n) => KeyClass::LayerRef(n),
            None => if is_special(key) {
                KeyClass::Special
            } else {
                KeyClass::Normal
            },
        }
    } else {
        KeyClass::LayerColor(layer_index)
    }
}

/// The digit that stands for a value below ten.
pub open spec fn digit_char(d: nat) -> char {
    if d == 0 {
        '0'
    } else if d == 1 {
        '1'
    } else if d == 2 {
        '2'
    } else if d == 3 {
        '3'
    } else if d == 4 {
        '4'
    } else if d == 5 {
        '5'
    } else if d == 6 {
        '6'
    } else if d == 7 {
        '7'
    } else if d == 8 {
        '8'
    } else {
        '9'
    }
}

/// The decimal digits of a number, without leading zeros.
pub open spec fn decimal(n: nat) -> Seq<char>
    decreases n,
{
    if n < 10 {
        seq![digit_char(n)]
    } else {
        decimal(n / 10).push(digit_char(n % 10))
    }
}

/// The style class of a category. A layer switch has the class of the layer
/// it leads to, which is also the class of that layer's own keys.
pub open spec fn class_name(c: KeyClass) -> Seq<char> {
    match c {
        KeyClass::Empty => "key key-empty"@,
        KeyClass::LayerRef(n) => "key key-layer"@ + decimal(n as nat),
        KeyClass::Special => "key key-special"@,
        KeyClass::Normal => "key"@,
        KeyClass::LayerColor(n) => "key key-layer"@ + decimal(n as nat),
    }
}

proof fn lemma_digits_prefix(d: Seq<char>, k: int)
    requires
        0 <= k <= d.len(),
    ensures
        digits_value(d.take(k)) <= digits_value(d),
    decreases d.len() - k,
{
    if k == d.len() {
        assert(d.take(k) =~= d);
    } else {
        assert(d.drop_last().take(k) =~= d.take(k));
        lemma_digits_prefix(d.drop_last(), k);
    }
}

/// Reads an unsigned decimal number.
pub fn parse_decimal(s: &[char]) -> (r: Option<usize>)
    ensures
        r == parse_number(s@),
{
    let n = s.len();
    let start: usize = if n > 0 && s[0] == '+' {
        1
    } else {
        0
    };
    let ghost d = if s@.len() > 0 && s@[0] == '+' {
        s@.drop_first()
    } else {
        s@
    };
    if start == n {
        return None;
    }
    let mut acc: usize = 0;
    let mut i: usize = start;
    while i < n
        invariant
            start <= i <= n == s.len(),
            d == s@.skip(start as int),
            parse_number(s@) == if d.len() > 0 && all_digits(d) && digits_value(d) <= usize::MAX {
                Some(digits_value(d) as usize)
            } else {
                None
            },
            all_digits(d.take(i - start)),
            acc == digits_value(d.take(i - start)),
        decreases n - i,
    {
        let c: u32 = s[i] as u32;
        assert(d[i - start] == s@[i as int]);
        if c < 0x30 || c > 0x39 {
            return None;
        }
        let dv: usize = (c - 0x30) as usize;
        let ghost next = d.take(i + 1 - start);
        proof {
            assert(next.drop_last() =~= d.take(i - start));
        }
        if acc > (usize::MAX - dv) / 10 {
            proof {
                lemma_digits_prefix(d, i + 1 - start);
            }
            return None;
        }
        acc = acc * 10 + dv;
        i += 1;
    }
    assert(d.take(n - start) =~= d);
    Some(acc)
}

proof fn lemma_call_prefix(key: Seq<char>, p: Seq<char>, c: char)
    requires
        p.is_prefix_of(key),
        p.len() >= 1,
        p.last() == '(',
        forall|j: int| 0 <= j < p.len() ==> p[j] != c,
    ensures
        position(key, '(') < position(key, c),
{
    lemma_position_bounds(key, '(');
    lemma_position_bounds(key, c);
    assert(key[p.len() - 1] == '(');
    if position(key, c) < p.len() {
        assert(key[position(key, c) as int] == p[position(key, c) as int]);
    }
}

fn single_switch(key: &[char]) -> (b: bool)
    ensures
        b == is_single_switch(key@),
        b ==> position(key@, '(') < position(key@, ')'),
{
    let b = starts_with(key, chars_of("MO(").as_slice()) || starts_with(
        key,
        chars_of("TO(").as_slice(),
    ) || starts_with(key, chars_of("TG(").as_slice()) || starts_with(
        key,
        chars_of("TT(").as_slice(),
    ) || starts_with(key, chars_of("OSL(").as_slice()) || starts_with(
        key,
        chars_of("DF(").as_slice(),
    );
    proof {
        reveal_strlit("MO(");
        reveal_strlit("TO(");
        reveal_strlit("TG(");
        reveal_strlit("TT(");
        reveal_strlit("OSL(");
        reveal_strlit("DF(");
        if "MO("@.is_prefix_of(key@) {
            lemma_call_prefix(key@, "MO("@, ')');
        } else if "TO("@.is_prefix_of(key@) {
            lemma_call_prefix(key@, "TO("@, ')');
        } else if "TG("@.is_prefix_of(key@) {
            lemma_call_prefix(key@, "TG("@, ')');
        } else if "TT("@.is_prefix_of(key@) {
            lemma_call_prefix(key@, "TT("@, ')');
        } else if "OSL("@.is_prefix_of(key@) {
            lemma_call_prefix(key@, "OSL("@, ')');
        } else if "DF("@.is_prefix_of(key@) {
            lemma_call_prefix(key@, "DF("@, ')');
        }
    }
    b
}

fn pair_switch(key: &[char]) -> (b: bool)
    ensures
        b == is_pair_switch(key@),
        b ==> position(key@, '(') < position(key@, ','),
{
    let b = starts_with(key, chars_of("LT(").as_slice()) || starts_with(
        key,
        chars_of("LM(").as_slice(),
    );
    proof {
        reveal_strlit("LT(");
        reveal_strlit("LM(");
        if "LT("@.is_prefix_of(key@) {
            lemma_call_prefix(key@, "LT("@, ',');
        } else if "LM("@.is_prefix_of(key@) {
            lemma_call_prefix(key@, "LM("@, ',');
        }
    }
    b
}

fn special_chars(key: &[char]) -> (b: bool)
    ensures
        b == is_special(key@),
{
    starts_with(key, chars_of("RGB_").as_slice()) || starts_with(key, chars_of("BL_").as_slice())
        || starts_with(key, chars_of("RESET").as_slice()) || starts_with(
        key,
        chars_of("QK_").as_slice(),
    )
}

/// The layer that a layer-switch key names, the key given by its characters.
pub fn layer_number_chars(key: &[char]) -> (n: Option<usize>)
    ensures
        n == layer_number(key@),
{
    if single_switch(key) {
        let open = find_char(key, '(');
        let end = find_char(key, ')');
        if end < key.len() {
            let arg = copy_range(key, open + 1, end);
            parse_decimal(arg.as_slice())
        } else {
            None
        }
    } else if pair_switch(key) {
        let open = find_char(key, '(');
        let end = find_char(key, ',');
        if end < key.len() {
            let arg = copy_range(key, open + 1, end);
            let arg = trimmed(arg.as_slice());
            parse_decimal(arg.as_slice())
        } else {
            None
        }
    } else {
        None
    }
}

/// The layer that a layer-switch key names, if it names one.
pub fn extract_layer_number(key: &str) -> (n: Option<usize>)
    ensures
        n == layer_number(key@),
{
    let chars = chars_of(key);
    layer_number_chars(chars.as_slice())
}

/// The category of a key on the layer with the given index.
pub fn classify(key: &str, layer_index: usize) -> (c: KeyClass)
    ensures
        c == classify_spec(key@, layer_index),
{
    let chars = chars_of(key);
    let k = chars.as_slice();
    if is_blank_chars(k) {
        KeyClass::Empty
    } else if layer_index == 0 {
        match layer_number_chars(k) {
            Some(n) => KeyClass::LayerRef(n),
            None => if special_chars(k) {
                KeyClass::Special
            } else {
                KeyClass::Normal
            },
        }
    } else {
        KeyClass::LayerColor(layer_index)
    }
}

fn digit_of(d: usize) -> (c: char)
    requires
        d < 10,
    ensures
        c == digit_char(d as nat),
{
    if d == 0 {
        '0'
    } else if d == 1 {
        '1'
    } else if d == 2 {
        '2'
    } else if d == 3 {
        '3'
    } else if d == 4 {
        '4'
    } else if d == 5 {
        '5'
    } else if d == 6 {
        '6'
    } else if d == 7 {
        '7'
    } else if d == 8 {
        '8'
    } else {
        '9'
    }
}

/// Appends the decimal digits of `n` to `s`.
pub fn push_decimal(s: &mut String, n: usize)
    ensures
        final(s)@ == old(s)@ + decimal(n as nat),
    decreases n,
{
    if n >= 10 {
        push_decimal(s, n / 10);
    }
    s.push(digit_of(n % 10));
}

/// The style class of a category.
pub fn class_name_of(c: KeyClass) -> (s: String)
    ensures
        s@ == class_name(c),
{
    match c {
        KeyClass::Empty => "key key-empty".to_owned(),
        KeyClass::LayerRef(n) => {
            let mut s = "key key-layer".to_owned();
            push_decimal(&mut s, n);
            s
        },
        KeyClass::Special => "key key-special".to_owned(),
        KeyClass::Normal => "key".to_owned(),
        KeyClass::LayerColor(n) => {
            let mut s = "key key-layer".to_owned();
            push_decimal(&mut s, n);
            s
        },
    }
}

/// The style class of a key on the layer with the given index.
pub fn get_key_class(key: &str, layer_index: usize) -> (s: String)
    ensures
        s@ == class_name(classify_spec(key@, layer_index)),
{
    class_name_of(classify(key, layer_index))
}

} // verus!
