use mzsocket::inet_addr;

#[test]
fn full_address() {
    assert_eq!(inet_addr("127.64.32.8"), Ok(0x7f402008));
}

#[test]
fn short_address_is_filled_with_zero() {
    assert_eq!(inet_addr("127.64"), Ok(0x7f400000));
    assert_eq!(inet_addr("10"), Ok(0x0a000000));
    assert_eq!(inet_addr("1.2.3"), Ok(0x01020300));
}

#[test]
fn text_that_is_no_number_fails_at_its_segment() {
    assert_eq!(inet_addr("127.168.john.p"), Err(2));
}

#[test]
fn number_above_255_fails_at_its_segment() {
    assert_eq!(inet_addr("127.512.711.299"), Err(1));
    assert_eq!(inet_addr("256"), Err(0));
    assert_eq!(inet_addr("1.2.3.256"), Err(3));
    assert_eq!(inet_addr("255.255.255.255"), Ok(0xffffffff));
}

#[test]
fn number_too_long_for_any_integer_fails() {
    assert_eq!(inet_addr("99999999999999999999999999.1"), Err(0));
    assert_eq!(inet_addr("1.4294967296"), Err(1));
    assert_eq!(inet_addr("1.4294967297.3"), Err(1));
}

#[test]
fn segments_after_the_fourth_are_passed_over() {
    assert_eq!(inet_addr("1.2.3.4.5"), Ok(0x01020304));
    assert_eq!(inet_addr("1.2.3.4.john"), Ok(0x01020304));
    assert_eq!(inet_addr("1.2.3.4."), Ok(0x01020304));
}

#[test]
fn empty_segment_fails() {
    assert_eq!(inet_addr(""), Err(0));
    assert_eq!(inet_addr("."), Err(0));
    assert_eq!(inet_addr("1..2"), Err(1));
    assert_eq!(inet_addr("1."), Err(1));
    assert_eq!(inet_addr("1.2.3."), Err(3));
}

#[test]
fn sign_and_leading_zeros() {
    assert_eq!(inet_addr("+1.+2"), Ok(0x01020000));
    assert_eq!(inet_addr("001.0002"), Ok(0x01020000));
    assert_eq!(inet_addr("0000000000000000000000255"), Ok(0xff000000));
    assert_eq!(inet_addr("+"), Err(0));
    assert_eq!(inet_addr("++1"), Err(0));
    assert_eq!(inet_addr("-1"), Err(0));
    assert_eq!(inet_addr("1.-0"), Err(1));
}

#[test]
fn blanks_and_other_bytes_fail() {
    assert_eq!(inet_addr(" 1"), Err(0));
    assert_eq!(inet_addr("1 .2"), Err(0));
    assert_eq!(inet_addr("1.2\n"), Err(1));
    assert_eq!(inet_addr("1.0x10"), Err(1));
    assert_eq!(inet_addr("1.\u{663}"), Err(1));
    assert_eq!(inet_addr("\u{ff11}.2"), Err(0));
}

#[test]
fn agrees_with_splitting_and_parsing() {
    let texts = [
        "127.64.32.8", "127.64", "127.168.john.p", "127.512.711.299", "", ".", "..", "1..2",
        "+1.2", "1.2.3.4.5", "0.0.0.0", "255.255.255.255", "256.1", "1.2.3.4.", "a", "1.a",
        "1.2.a", "1.2.3.a", "1.2.3.4.a", "300", "+", "1_0", "٣", "4294967295", "4294967296",
    ];
    for text in texts {
        let mut want: Result<u32, usize> = Ok(0);
        let mut value: u32 = 0;
        for (i, part) in text.split('.').take(4).enumerate() {
            match part.parse::<u32>() {
                Ok(v) if v <= 255 => value |= v << (8 * (3 - i)),
                _ => {
                    want = Err(i);
                    break;
                }
            }
        }
        if want.is_ok() {
            want = Ok(value);
        }
        assert_eq!(inet_addr(text), want);
    }
}
