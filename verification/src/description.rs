//! Debug text of a foreign object, by the foreign description convention.

use vstd::prelude::*;

verus! {

/// The sixteen digits, in their order.
pub open spec fn digits() -> Seq<char> {
    seq!['0', '1', '2', '3', '4', '5', '6', '7', '8', '9', 'a', 'b', 'c', 'd', 'e', 'f']
}

/// `n` in base sixteen, without leading zeros.
pub open spec fn hex(n: nat) -> Seq<char>
    decreases n,
{
    if n < 16 {
        seq![digits()[n as int]]
    } else {
        hex(n / 16).push(digits()[(n % 16) as int])
    }
}

/// The text of a reference, as an address is written.
pub open spec fn address(raw: usize) -> Seq<char> {
    seq!['0', 'x'] + hex(raw as nat)
}

/// The text that stands for an object that does not describe itself: its
/// class and its address.
pub open spec fn fallback(class: Seq<char>, raw: usize) -> Seq<char> {
    seq!['<'] + class + seq![':', ' '] + address(raw) + seq!['>']
}

/// Appends `n` in base sixteen to `text`.
fn push_hex(text: &mut String, n: usize)
    ensures
        final(text)@ == old(text)@ + hex(n as nat),
    decreases n,
{
    let all = "0123456789abcdef";
    proof {
        reveal_strlit("0123456789abcdef");
        assert(all@ =~= digits());
    }
    if n >= 16 {
        push_hex(text, n / 16);
    }
    let digit = n % 16;
    let one = all.substring_char(digit, digit + 1);
    proof {
        assert(one@ =~= seq![digits()[digit as int]]);
        if n >= 16 {
            assert(hex(n as nat) =~= hex((n / 16) as nat) + one@);
        }
    }
    text.append(one);
}

/// The text that describes an object: what its description message answered,
/// or, where it answered nothing, the class and the address in angle brackets.
pub fn debug_text(description: Option<String>, class: &str, raw: usize) -> (text: String)
    ensures
        text@ == match description {
            Some(answer) => answer@,
            None => fallback(class@, raw),
        },
{
    match description {
        Some(answer) => answer,
        None => {
            proof {
                reveal_strlit("<");
                reveal_strlit(": 0x");
                reveal_strlit(">");
                assert("<"@ =~= seq!['<']);
                assert(": 0x"@ =~= seq![':', ' ', '0', 'x']);
                assert(">"@ =~= seq!['>']);
            }
            let mut text = String::from_str("<");
            text.append(class);
            text.append(": 0x");
            push_hex(&mut text, raw);
            text.append(">");
            assert(text@ =~= fallback(class@, raw));
            text
        },
    }
}

} // verus!
