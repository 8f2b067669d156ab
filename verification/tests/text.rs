use railnet::text::{format_decimal, name_from_number, numbered_name, parse_u32, right_align, trim, zero_pad};

#[test]
fn numbers_are_written_in_base_ten() {
    assert_eq!(format_decimal(0), "0");
    assert_eq!(format_decimal(7), "7");
    assert_eq!(format_decimal(10), "10");
    assert_eq!(format_decimal(1234567890), "1234567890");
    assert_eq!(format_decimal(u128::MAX), "340282366920938463463374607431768211455");
}

#[test]
fn padding_fills_up_to_the_width() {
    assert_eq!(zero_pad("7", 3), "007");
    assert_eq!(zero_pad("42", 3), "042");
    assert_eq!(zero_pad("123", 3), "123");
    assert_eq!(zero_pad("1234", 3), "1234");
    assert_eq!(zero_pad("", 2), "00");
    assert_eq!(zero_pad("5", 0), "5");
    assert_eq!(right_align("node001", 12), "     node001");
    assert_eq!(right_align("(switch", 9), "  (switch");
    assert_eq!(right_align("a-very-long-name", 10), "a-very-long-name");
    assert_eq!(right_align("", 3), "   ");
}

#[test]
fn padding_counts_characters_not_bytes() {
    assert_eq!(right_align("zürich", 8), "  zürich");
    assert_eq!(right_align("zürich", 8), format!("{:>8}", "zürich"));
    assert_eq!(zero_pad("é", 3), "00é");
}

#[test]
fn numbered_names_have_a_prefix_and_a_padded_number() {
    assert_eq!(numbered_name("tseg", 1, 3), "tseg001");
    assert_eq!(numbered_name("tseg", 1, 3), format!("tseg{:03}", 1));
    assert_eq!(numbered_name("node", 999, 3), "node999");
    assert_eq!(numbered_name("node", 1000, 3), "node1000");
    assert_eq!(numbered_name("train", 12, 0), "train12");
    assert_eq!(numbered_name("train", 12, 0), format!("train{}", 12));
}

#[test]
fn trimming_removes_the_white_space_around() {
    assert_eq!(trim("  12 "), "12");
    assert_eq!(trim("12"), "12");
    assert_eq!(trim(""), "");
    assert_eq!(trim(" \t\r\n"), "");
    assert_eq!(trim("\u{a0}1 2\u{3000}\u{2028}"), "1 2");
    assert_eq!(trim("\u{85}\u{1680}x\u{2000}\u{200a}\u{2029}\u{202f}\u{205f}"), "x");
    assert_eq!(trim("\u{200b}x\u{200b}"), "\u{200b}x\u{200b}");
    for text in ["  a b  ", "\u{b}\u{c}x", "x\u{1c}", "\u{feff}y", "\u{180e}z "] {
        assert_eq!(trim(text), text.trim());
    }
}

#[test]
fn numbers_are_read_as_the_standard_library_reads_them() {
    assert_eq!(parse_u32("0"), Some(0));
    assert_eq!(parse_u32("7"), Some(7));
    assert_eq!(parse_u32("007"), Some(7));
    assert_eq!(parse_u32("+15"), Some(15));
    assert_eq!(parse_u32("4294967295"), Some(u32::MAX));
    assert_eq!(parse_u32("4294967296"), None);
    assert_eq!(parse_u32("99999999999999999999999999"), None);
    assert_eq!(parse_u32("00000000000000000000000001"), Some(1));
    assert_eq!(parse_u32(""), None);
    assert_eq!(parse_u32("+"), None);
    assert_eq!(parse_u32("-"), None);
    assert_eq!(parse_u32("-0"), None);
    assert_eq!(parse_u32("++1"), None);
    assert_eq!(parse_u32("1+"), None);
    assert_eq!(parse_u32("12a"), None);
    assert_eq!(parse_u32("1 2"), None);
    assert_eq!(parse_u32(" 1"), None);
    assert_eq!(parse_u32("٣"), None);
    for text in ["0", "+0", "12", "+", "", "-1", "4294967295", "4294967296", "1_000", "0x10", "１２"] {
        assert_eq!(parse_u32(text), text.parse::<u32>().ok());
    }
}

#[test]
fn a_number_stands_for_a_segment_name() {
    assert_eq!(name_from_number(&String::from("7")), "tseg007");
    assert_eq!(name_from_number(&String::from(" 12\n")), "tseg012");
    assert_eq!(name_from_number(&String::from("+5")), "tseg005");
    assert_eq!(name_from_number(&String::from("0")), "tseg000");
    assert_eq!(name_from_number(&String::from("1234")), "tseg1234");
    assert_eq!(name_from_number(&String::from("4294967295")), "tseg4294967295");
    assert_eq!(name_from_number(&String::from("4294967296")), "");
    assert_eq!(name_from_number(&String::from("tseg007")), "");
    assert_eq!(name_from_number(&String::from("")), "");
    assert_eq!(name_from_number(&String::from("1 2")), "");
}
