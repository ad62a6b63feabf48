use a3conv::map::{MapDataType, ObjectType};
use a3conv::wmp::{
    is_whitespace, parse_index, parse_line, record_from_words, split_line, MapRecord, MissingField,
};

fn words_by_std(line: &str) -> Vec<String> {
    let line = line.trim();
    let line = line.split_once(';').map_or(line, |(before, _)| before);
    let line = line.trim_end();
    line.split_whitespace().map(|w| w.to_string()).collect()
}

#[test]
fn white_space_is_what_std_calls_white_space() {
    let mut u: u32 = 0;
    while u <= 0x10FFFF {
        if let Some(c) = char::from_u32(u) {
            assert_eq!(is_whitespace(c), c.is_whitespace());
        }
        u += 1;
    }
}

#[test]
fn lines_split_at_white_space() {
    assert_eq!(split_line("VERTEX 1.5 -2 3"), vec!["VERTEX", "1.5", "-2", "3"]);
    assert_eq!(split_line("  a\t\tb  "), vec!["a", "b"]);
    assert_eq!(split_line(""), Vec::<String>::new());
    assert_eq!(split_line("   \t "), Vec::<String>::new());
    assert_eq!(split_line("x"), vec!["x"]);
    assert_eq!(split_line("a\u{3000}b\u{a0}c"), vec!["a", "b", "c"]);
    assert_eq!(split_line("\u{e9}t\u{e9} \u{4e16}\u{754c}"), vec!["\u{e9}t\u{e9}", "\u{4e16}\u{754c}"]);
}

#[test]
fn comments_are_cut_off() {
    assert_eq!(split_line("WALL w 1 2 ; the rest ; and more"), vec!["WALL", "w", "1", "2"]);
    assert_eq!(split_line("; all comment"), Vec::<String>::new());
    assert_eq!(split_line("a;b"), vec!["a"]);
    assert_eq!(split_line(" a b;"), vec!["a", "b"]);
    assert_eq!(split_line(";"), Vec::<String>::new());
}

#[test]
fn splitting_agrees_with_std() {
    let samples = [
        "VERTEX 0 0 0",
        "  REGION  r1   0.0   128.0  ; floor and ceiling",
        "\tWALL\tw\t1\t2\t3\t4\t0.5\t0.25",
        "# comment",
        "   # indented comment ; with semicolon",
        ";;;",
        "a ; b ; c",
        "trailing   ",
        "   leading",
        "",
        " ",
        "x;",
        ";x",
        "a\u{2003}b\u{85}c\u{1680}d",
        "PLAYER_START 1 2 3 4 ; start",
        "one",
        "one two",
    ];
    for line in samples {
        assert_eq!(split_line(line), words_by_std(line));
    }
}

#[test]
fn indices_are_decimal_numbers() {
    assert_eq!(parse_index("0"), 0);
    assert_eq!(parse_index("7"), 7);
    assert_eq!(parse_index("1234567"), 1234567);
    assert_eq!(parse_index("007"), 7);
    assert_eq!(parse_index("+42"), 42);
}

#[test]
fn words_that_are_no_index_give_zero() {
    assert_eq!(parse_index(""), 0);
    assert_eq!(parse_index("+"), 0);
    assert_eq!(parse_index("-3"), 0);
    assert_eq!(parse_index("-0"), 0);
    assert_eq!(parse_index("++1"), 0);
    assert_eq!(parse_index("1+"), 0);
    assert_eq!(parse_index("12a"), 0);
    assert_eq!(parse_index("a12"), 0);
    assert_eq!(parse_index("1.5"), 0);
    assert_eq!(parse_index(" 1"), 0);
    assert_eq!(parse_index("0x10"), 0);
    assert_eq!(parse_index("\u{661}"), 0);
}

#[test]
fn indices_that_do_not_fit_give_zero() {
    let max = usize::MAX.to_string();
    assert_eq!(parse_index(&max), usize::MAX);
    let plus_max = format!("+{}", max);
    assert_eq!(parse_index(&plus_max), usize::MAX);
    let padded = format!("000{}", max);
    assert_eq!(parse_index(&padded), usize::MAX);
    let over = format!("{}0", max);
    assert_eq!(parse_index(&over), 0);
    let mut next = max.clone().into_bytes();
    let last = next.len() - 1;
    next[last] += 1;
    let next = String::from_utf8(next).unwrap();
    assert_eq!(parse_index(&next), 0);
    assert_eq!(parse_index("99999999999999999999999999999999999999999"), 0);
}

#[test]
fn index_parsing_agrees_with_std() {
    let samples = [
        "", "0", "1", "+1", "-1", "+", "-", "00", "+00", "18446744073709551615",
        "18446744073709551616", "4294967295", "4294967296", "12 ", " 12", "1_000", "1e3", "٣",
        "9", "10", "+-1", "3.0", "abc",
    ];
    for word in samples {
        assert_eq!(parse_index(word), word.parse::<usize>().unwrap_or_default());
    }
    let mut n: usize = 1;
    for _ in 0..60 {
        let text = n.to_string();
        assert_eq!(parse_index(&text), n);
        n = n.wrapping_mul(7).wrapping_add(3);
    }
}

#[test]
fn vertex_line() {
    assert_eq!(
        parse_line("VERTEX 1.5 -2.25 3 ; corner"),
        Ok(Some(MapRecord::Vertex {
            x: "1.5".to_string(),
            y: "-2.25".to_string(),
            z: "3".to_string()
        }))
    );
}

#[test]
fn region_line() {
    assert_eq!(
        parse_line("  REGION hall 0 128 extra words"),
        Ok(Some(MapRecord::Region {
            name: "hall".to_string(),
            floor_height: "0".to_string(),
            ceiling_height: "128".to_string()
        }))
    );
}

#[test]
fn wall_line() {
    assert_eq!(
        parse_line("WALL w1 3 4 1 x 0.5 0.25"),
        Ok(Some(MapRecord::Wall {
            name: "w1".to_string(),
            vertex1_index: 3,
            vertex2_index: 4,
            region1_index: 1,
            region2_index: 0,
            offset_x: "0.5".to_string(),
            offset_y: "0.25".to_string()
        }))
    );
}

#[test]
fn object_lines() {
    assert_eq!(
        parse_line("THING lamp 10 20 90 2"),
        Ok(Some(MapRecord::Object {
            object_type: ObjectType::Thing,
            name: "lamp".to_string(),
            x: "10".to_string(),
            y: "20".to_string(),
            angle: "90".to_string(),
            region: 2
        }))
    );
    assert_eq!(
        parse_line("ACTOR guard 1 2 3 4"),
        Ok(Some(MapRecord::Object {
            object_type: ObjectType::Actor,
            name: "guard".to_string(),
            x: "1".to_string(),
            y: "2".to_string(),
            angle: "3".to_string(),
            region: 4
        }))
    );
}

#[test]
fn player_start_is_named_by_its_keyword() {
    assert_eq!(
        parse_line("PLAYER_START 10 20 90 2"),
        Ok(Some(MapRecord::Object {
            object_type: ObjectType::PlayerStart,
            name: "PLAYER_START".to_string(),
            x: "10".to_string(),
            y: "20".to_string(),
            angle: "90".to_string(),
            region: 2
        }))
    );
}

#[test]
fn lines_without_record_are_skipped() {
    assert_eq!(parse_line(""), Ok(None));
    assert_eq!(parse_line("   "), Ok(None));
    assert_eq!(parse_line("# VERTEX 1 2 3"), Ok(None));
    assert_eq!(parse_line("  #WALL"), Ok(None));
    assert_eq!(parse_line("; VERTEX 1 2 3"), Ok(None));
    assert_eq!(parse_line("vertex 1 2 3"), Ok(None));
    assert_eq!(parse_line("PATH a b c"), Ok(None));
    assert_eq!(parse_line("VERTEX; 1 2 3"), Err(MissingField { kind: MapDataType::Vertex, found: 1 }));
}

#[test]
fn lines_with_too_few_words_are_reported() {
    assert_eq!(
        parse_line("VERTEX 1 2"),
        Err(MissingField { kind: MapDataType::Vertex, found: 3 })
    );
    assert_eq!(
        parse_line("REGION r"),
        Err(MissingField { kind: MapDataType::Region, found: 2 })
    );
    assert_eq!(
        parse_line("WALL w 1 2 3 4 5"),
        Err(MissingField { kind: MapDataType::Wall, found: 7 })
    );
    assert_eq!(
        parse_line("THING t 1 2 3"),
        Err(MissingField { kind: MapDataType::Object, found: 5 })
    );
    assert_eq!(
        parse_line("PLAYER_START 1 2 3"),
        Err(MissingField { kind: MapDataType::Object, found: 4 })
    );
    assert_eq!(
        parse_line("VERTEX 1 2 ; 3"),
        Err(MissingField { kind: MapDataType::Vertex, found: 3 })
    );
}

#[test]
fn records_are_built_from_words() {
    let words: Vec<String> = ["VERTEX", "a", "b", "c"].iter().map(|w| w.to_string()).collect();
    assert_eq!(
        record_from_words(&words),
        Ok(Some(MapRecord::Vertex { x: "a".to_string(), y: "b".to_string(), z: "c".to_string() }))
    );
    assert_eq!(record_from_words(&Vec::new()), Ok(None));
    let hash: Vec<String> = ["#VERTEX", "a", "b", "c"].iter().map(|w| w.to_string()).collect();
    assert_eq!(record_from_words(&hash), Ok(None));
    let empty_word: Vec<String> = vec![String::new()];
    assert_eq!(record_from_words(&empty_word), Ok(None));
}

#[test]
fn words_are_not_empty_and_hold_no_white_space() {
    let lines = [
        "  WALL\tw 1  2\u{3000}3 ; c",
        "a",
        " a ",
        "\u{2028}x\u{2029}y\u{205f}",
        "",
        "   ",
    ];
    for line in lines {
        for word in split_line(line) {
            assert!(!word.is_empty());
            assert!(word.chars().all(|c| !is_whitespace(c)));
        }
    }
}
