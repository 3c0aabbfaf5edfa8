use pandora_launcher::exit_status::PandoraExitStatus;

#[test]
fn ordinary_codes_are_shown_in_decimal() {
    assert_eq!(PandoraExitStatus(0).fmt(), "exitcode=0");
    assert_eq!(PandoraExitStatus(1).fmt(), "exitcode=1");
    assert_eq!(PandoraExitStatus(10).fmt(), "exitcode=10");
    assert_eq!(PandoraExitStatus(255).fmt(), "exitcode=255");
    assert_eq!(PandoraExitStatus(0x7fff_ffff).fmt(), "exitcode=2147483647");
}

#[test]
fn codes_with_the_top_bit_are_shown_in_hexadecimal() {
    assert_eq!(PandoraExitStatus(0x8000_0000).fmt(), "exitcode=0x80000000");
    assert_eq!(PandoraExitStatus(0xc000_0005).fmt(), "exitcode=0xc0000005");
    assert_eq!(PandoraExitStatus(0xdead_beef).fmt(), "exitcode=0xdeadbeef");
    assert_eq!(PandoraExitStatus(u32::MAX).fmt(), "exitcode=0xffffffff");
}

#[test]
fn texts_agree_with_the_standard_formats() {
    let mut code: u32 = 1;
    for _ in 0..200 {
        code = code.wrapping_mul(1_664_525).wrapping_add(1_013_904_223);
        let expected = if code & 0x8000_0000 != 0 {
            format!("exitcode={:#x}", code)
        } else {
            format!("exitcode={}", code)
        };
        assert_eq!(PandoraExitStatus(code).fmt(), expected);
    }
}

#[test]
fn different_codes_are_shown_differently() {
    let codes = [0u32, 1, 8, 10, 16, 0x7fff_ffff, 0x8000_0000, 0x8000_0001, u32::MAX];
    for a in codes {
        for b in codes {
            let same = PandoraExitStatus(a).fmt() == PandoraExitStatus(b).fmt();
            assert_eq!(same, a == b);
        }
    }
}
