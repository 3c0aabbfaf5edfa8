//! How the exit code of a finished child process is shown.

use vstd::prelude::*;

use crate::text;

verus! {

/// The exit code of a finished process.
#[derive(Clone, Copy, Debug, PartialEq, Eq, Structural)]
pub struct PandoraExitStatus(pub u32);

impl PandoraExitStatus {
    /// Whether the code has its top bit set, as the codes of crashed
    /// processes do.
    pub open spec fn is_failure_code(self) -> bool {
        self.0 >= 0x8000_0000
    }

    /// How the status is shown.
    pub open spec fn display(self) -> Seq<char> {
        if self.is_failure_code() {
            "exitcode=0x"@ + text::hexadecimal(self.0 as nat)
        } else {
            "exitcode="@ + text::decimal(self.0 as nat)
        }
    }

    /// The status as text: codes with the top bit set in hexadecimal, with a
    /// prefix, and all others in decimal.
    pub fn fmt(&self) -> (shown: String)
        ensures
            shown@ == self.display(),
    {
        let code: u32 = self.0;
        assert((code & 0x8000_0000u32 != 0) == (code >= 0x8000_0000u32)) by (bit_vector);
        if code & 0x8000_0000 != 0 {
            let mut shown = String::from_str("exitcode=0x");
            text::append_numeral(&mut shown, code as u64, 16);
            shown
        } else {
            let mut shown = String::from_str("exitcode=");
            text::append_numeral(&mut shown, code as u64, 10);
            shown
        }
    }
}

/// Different exit codes are shown differently.
pub proof fn law_display_is_injective(a: PandoraExitStatus, b: PandoraExitStatus)
    requires
        a.display() == b.display(),
    ensures
        a == b,
{
    reveal_strlit("exitcode=0x");
    reveal_strlit("exitcode=");
    let hex = "exitcode=0x"@;
    let dec = "exitcode="@;
    if a.is_failure_code() && b.is_failure_code() {
        let rest_a = text::hexadecimal(a.0 as nat);
        let rest_b = text::hexadecimal(b.0 as nat);
        assert(rest_a =~= a.display().skip(hex.len() as int));
        assert(rest_b =~= b.display().skip(hex.len() as int));
        text::lemma_numeral_is_injective(a.0 as nat, b.0 as nat, 16);
    } else if !a.is_failure_code() && !b.is_failure_code() {
        let rest_a = text::decimal(a.0 as nat);
        let rest_b = text::decimal(b.0 as nat);
        assert(rest_a =~= a.display().skip(dec.len() as int));
        assert(rest_b =~= b.display().skip(dec.len() as int));
        text::lemma_numeral_is_injective(a.0 as nat, b.0 as nat, 10);
    } else if a.is_failure_code() {
        lemma_prefix_is_no_decimal(a, b);
    } else {
        lemma_prefix_is_no_decimal(b, a);
    }
}

/// A hexadecimal text has an `x` where a decimal one has a digit or nothing.
proof fn lemma_prefix_is_no_decimal(hex: PandoraExitStatus, dec: PandoraExitStatus)
    requires
        hex.is_failure_code(),
        !dec.is_failure_code(),
    ensures
        hex.display() != dec.display(),
{
    reveal_strlit("exitcode=0x");
    reveal_strlit("exitcode=");
    text::lemma_numeral_characters(dec.0 as nat, 10);
    text::lemma_numeral_characters(hex.0 as nat, 16);
    assert(hex.display()[10] == 'x');
    if dec.display().len() > 10 {
        let digits = text::decimal(dec.0 as nat);
        assert(dec.display()[10] == digits[1]);
        let d = choose|d: int| 0 <= d < 10 && digits[1] == #[trigger] text::digit_char(d);
        assert(text::digit_char(d) != 'x');
    }
}

/// What the shown text says: behind `exitcode=` stand the digits of the code, in
/// base ten, or, where the code's top bit is set, `0x` and the digits in base
/// sixteen.
pub proof fn law_display_tells_the_code(status: PandoraExitStatus)
    ensures
        status.0 & 0x8000_0000 == 0 ==> {
            let digits = status.display().skip(9);
            &&& status.display().take(9) == "exitcode="@
            &&& text::value_of(digits, 10) == status.0
            &&& forall|i: int| 0 <= i < digits.len() ==> '0' <= #[trigger] digits[i] <= '9'
            &&& digits.len() > 0 && (status.0 > 0 ==> digits[0] != '0')
        },
        status.0 & 0x8000_0000 != 0 ==> {
            let digits = status.display().skip(11);
            &&& status.display().take(11) == "exitcode=0x"@
            &&& text::value_of(digits, 16) == status.0
            &&& forall|i: int|
                0 <= i < digits.len() ==> '0' <= #[trigger] digits[i] <= '9' || 'a' <= digits[i]
                    <= 'f'
            &&& digits.len() > 0 && digits[0] != '0'
        },
{
    reveal_strlit("exitcode=0x");
    reveal_strlit("exitcode=");
    let code = status.0;
    assert((code & 0x8000_0000u32 != 0) == (code >= 0x8000_0000u32)) by (bit_vector);
    if code >= 0x8000_0000 {
        text::law_a_numeral_stands_for_its_number(code as nat, 16);
        assert(status.display().take(11) =~= "exitcode=0x"@);
        assert(status.display().skip(11) =~= text::numeral(code as nat, 16));
    } else {
        text::law_a_numeral_stands_for_its_number(code as nat, 10);
        assert(status.display().take(9) =~= "exitcode="@);
        let digits = text::numeral(code as nat, 10);
        assert(status.display().skip(9) =~= digits);
        assert forall|i: int| 0 <= i < digits.len() implies '0' <= #[trigger] digits[i] <= '9' by {
            assert(text::digit_value(digits[i]) < 10);
        }
    }
}

} // verus!
