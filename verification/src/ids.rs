//! Random identifiers.

use uuid::Uuid;
use vstd::prelude::*;

use crate::text::{digit_char, hex};

verus! {

/// Whether a number is a random identifier: version 4, of the standard variant.
pub open spec fn is_random_id(id: u128) -> bool {
    &&& id / 0x1000_0000_0000_0000_0000 % 16 == 4
    &&& id / 0x4000_0000_0000_0000 % 4 == 2
}

/// The text of an identifier: its hexadecimal digits in five groups.
pub open spec fn hyphenated(id: u128) -> Seq<char> {
    hex((id / 0x1_0000_0000_0000_0000_0000_0000) as nat, 8) + "-"@ + hex(
        (id / 0x1_0000_0000_0000_0000_0000 % 0x1_0000) as nat,
        4,
    ) + "-"@ + hex((id / 0x1_0000_0000_0000_0000 % 0x1_0000) as nat, 4) + "-"@ + hex(
        (id / 0x1_0000_0000_0000 % 0x1_0000) as nat,
        4,
    ) + "-"@ + hex((id % 0x1_0000_0000_0000) as nat, 12)
}

/// `Uuid::new_v4`, as a number: whatever bits are drawn, version and variant are
/// set. It does not return where the system gives no random bits.
#[verifier::external_body]
pub(crate) fn random_id() -> (id: u128)
    ensures
        is_random_id(id),
{
    Uuid::new_v4().as_u128()
}

/// `to_string` of the `Uuid` with that number: lower-case digits in groups of
/// eight, four, four, four and twelve.
#[verifier::external_body]
pub(crate) fn id_text(id: u128) -> (text: String)
    ensures
        text@ == hyphenated(id),
{
    Uuid::from_u128(id).to_string()
}

proof fn lemma_hex_length(n: nat, width: nat)
    ensures
        hex(n, width).len() == width,
    decreases width,
{
    if width > 0 {
        lemma_hex_length(n / 16, (width - 1) as nat);
    }
}

/// The text of an identifier has 36 characters, with hyphens behind the eighth, the
/// twelfth, the sixteenth and the twentieth digit. That of a random one tells its version
/// by the thirteenth digit.
pub proof fn law_identifiers_have_their_form(id: u128)
    ensures
        hyphenated(id).len() == 36,
        hyphenated(id)[8] == '-',
        hyphenated(id)[13] == '-',
        hyphenated(id)[18] == '-',
        hyphenated(id)[23] == '-',
        is_random_id(id) ==> hyphenated(id)[14] == '4',
{
    let group = (id / 0x1_0000_0000_0000_0000 % 0x1_0000) as nat;
    lemma_hex_length((id / 0x1_0000_0000_0000_0000_0000_0000) as nat, 8);
    lemma_hex_length((id / 0x1_0000_0000_0000_0000_0000 % 0x1_0000) as nat, 4);
    lemma_hex_length(group, 4);
    lemma_hex_length((id / 0x1_0000_0000_0000 % 0x1_0000) as nat, 4);
    lemma_hex_length((id % 0x1_0000_0000_0000) as nat, 12);
    lemma_groups(
        hex((id / 0x1_0000_0000_0000_0000_0000_0000) as nat, 8),
        hex((id / 0x1_0000_0000_0000_0000_0000 % 0x1_0000) as nat, 4),
        hex(group, 4),
        hex((id / 0x1_0000_0000_0000 % 0x1_0000) as nat, 4),
        hex((id % 0x1_0000_0000_0000) as nat, 12),
    );
    lemma_first_digit(group);
    lemma_version_digit(id as int);
}

proof fn lemma_groups(a: Seq<char>, b: Seq<char>, c: Seq<char>, d: Seq<char>, e: Seq<char>)
    requires
        a.len() == 8,
        b.len() == 4,
        c.len() == 4,
        d.len() == 4,
        e.len() == 12,
    ensures
        ({
            let text = a + "-"@ + b + "-"@ + c + "-"@ + d + "-"@ + e;
            &&& text.len() == 36
            &&& text[8] == '-' && text[13] == '-' && text[18] == '-' && text[23] == '-'
            &&& text[14] == c[0]
        }),
{
    reveal_strlit("-");
}

proof fn lemma_first_digit(n: nat)
    requires
        n < 0x1_0000,
    ensures
        hex(n, 4).len() == 4,
        hex(n, 4)[0] == digit_char((n / 0x1000) as int),
{
    lemma_hex_length(n / 16 / 16 / 16, 1);
    lemma_hex_length(n / 16 / 16, 2);
    lemma_hex_length(n / 16, 3);
    lemma_hex_length(n, 4);
    assert(hex(n / 16 / 16 / 16 / 16, 0).len() == 0);
    assert(hex(n / 16 / 16 / 16, 1)[0] == digit_char((n / 16 / 16 / 16 % 16) as int));
    assert(hex(n / 16 / 16, 2)[0] == hex(n / 16 / 16 / 16, 1)[0]);
    assert(hex(n / 16, 3)[0] == hex(n / 16 / 16, 2)[0]);
    assert(hex(n, 4)[0] == hex(n / 16, 3)[0]);
    assert(n / 16 / 16 / 16 % 16 == n / 0x1000);
}

proof fn lemma_version_digit(id: int)
    requires
        0 <= id,
    ensures
        id / 0x1_0000_0000_0000_0000 % 0x1_0000 / 0x1000 == id / 0x1000_0000_0000_0000_0000 % 16,
{
    let high = id / 0x1_0000_0000_0000_0000;
    assert(id / 0x1000_0000_0000_0000_0000 == high / 0x1000);
    assert(high % 0x1_0000 / 0x1000 == high / 0x1000 % 16);
}

} // verus!
