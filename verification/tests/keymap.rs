use keyball44_viz::classify::{class_name_of, parse_decimal};
use keyball44_viz::layout::{canvas_height, canvas_width, geometry, key_width, LIMIT};
use keyball44_viz::parser::{Mode, ParserState};
use keyball44_viz::text::{chars_of, has_substring, is_whitespace, split_lines, string_of, trimmed};
use keyball44_viz::{
    classify, escape_label, extract_layer_number, get_key_class, is_empty_key, key_counts, layout,
    parse_keys_with_parens, parse_layers, KeyClass, KeyCounts, Layer,
};

fn row_of(keys: &[&str]) -> Vec<String> {
    keys.iter().map(|k| k.to_string()).collect()
}

fn base_layer_source() -> String {
    let mut s = String::new();
    s.push_str("#include QMK_KEYBOARD_H\n\n");
    s.push_str("// clang-format off\n");
    s.push_str("const uint16_t PROGMEM keymaps[][MATRIX_ROWS][MATRIX_COLS] = {\n");
    s.push_str("  [0] = LAYOUT_universal(\n");
    s.push_str("    KC_ESC , KC_Q , KC_W , KC_E , KC_R , KC_T , KC_Y , KC_U , KC_I , KC_O , KC_P , KC_DEL ,\n");
    s.push_str("    KC_TAB , KC_A , KC_S , KC_D , KC_F , KC_G , KC_H , KC_J , KC_K , KC_L , KC_SCLN , S(KC_7) ,\n");
    s.push_str("    KC_LSFT , KC_Z , KC_X , KC_C , KC_V , KC_B , KC_N , KC_M , KC_COMM , _______ , KC_SLSH , KC_RSFT ,\n");
    s.push_str("    KC_LALT , KC_LGUI , MO(1) , LT(2,KC_SPC) , LT(3,KC_ESC) , KC_BSPC , _______ , RGB_TOG\n");
    s.push_str("  ),\n");
    s.push_str("};\n");
    s
}

#[test]
fn splitter_keeps_nested_commas() {
    assert_eq!(parse_keys_with_parens("A(1,2),B,C(3)"), vec!["A(1,2)", "B", "C(3)"]);
}

#[test]
fn splitter_trims_and_drops_empty_tokens() {
    assert_eq!(parse_keys_with_parens("  KC_A ,  KC_B,, KC_C ,,"), vec!["KC_A", "KC_B", "KC_C"]);
    assert!(parse_keys_with_parens("").is_empty());
    assert!(parse_keys_with_parens(" , ,").is_empty());
}

#[test]
fn splitter_tolerates_unbalanced_parentheses() {
    assert_eq!(parse_keys_with_parens("A),B,C"), vec!["A),B,C"]);
    assert_eq!(parse_keys_with_parens("A(,B"), vec!["A(,B"]);
    assert_eq!(parse_keys_with_parens("A(),B)(,C"), vec!["A()", "B)(", "C"]);
}

#[test]
fn empty_key_is_one_or_more_underscores() {
    assert!(is_empty_key("_______"));
    assert!(is_empty_key("_"));
    assert!(!is_empty_key(""));
    assert!(!is_empty_key("KC_A"));
    assert!(!is_empty_key("__ "));
}

#[test]
fn classifier_categories() {
    assert_eq!(classify("_______", 0), KeyClass::Empty);
    assert_eq!(classify("MO(1)", 0), KeyClass::LayerRef(1));
    assert_eq!(classify("LT(2,KC_A)", 0), KeyClass::LayerRef(2));
    assert_eq!(classify("RGB_TOG", 0), KeyClass::Special);
    assert_eq!(classify("KC_A", 0), KeyClass::Normal);
    assert_eq!(classify("KC_A", 3), KeyClass::LayerColor(3));
}

#[test]
fn classifier_empty_on_every_layer() {
    assert_eq!(classify("___", 5), KeyClass::Empty);
    assert_eq!(classify("MO(1)", 2), KeyClass::LayerColor(2));
}

#[test]
fn classifier_falls_through_on_unreadable_layer() {
    assert_eq!(classify("MO(_FN)", 0), KeyClass::Normal);
    assert_eq!(classify("MO(1", 0), KeyClass::Normal);
    assert_eq!(classify("LT(x,KC_A)", 0), KeyClass::Normal);
    assert_eq!(classify("LT(2)", 0), KeyClass::Normal);
    assert_eq!(classify("QK_BOOT", 0), KeyClass::Special);
    assert_eq!(classify("BL_TOGG", 0), KeyClass::Special);
    assert_eq!(classify("RESET", 0), KeyClass::Special);
}

#[test]
fn layer_number_by_prefix_family() {
    assert_eq!(extract_layer_number("MO(1)"), Some(1));
    assert_eq!(extract_layer_number("TO(12)"), Some(12));
    assert_eq!(extract_layer_number("TG(3)"), Some(3));
    assert_eq!(extract_layer_number("TT(4)"), Some(4));
    assert_eq!(extract_layer_number("OSL(5)"), Some(5));
    assert_eq!(extract_layer_number("DF(0)"), Some(0));
    assert_eq!(extract_layer_number("LT( 2 ,KC_A)"), Some(2));
    assert_eq!(extract_layer_number("LM(7, MOD_LSFT)"), Some(7));
    assert_eq!(extract_layer_number("MO( 1 )"), None);
    assert_eq!(extract_layer_number("MO(+1)"), Some(1));
    assert_eq!(extract_layer_number("MO()"), None);
    assert_eq!(extract_layer_number("KC_A"), None);
    assert_eq!(extract_layer_number("MO(99999999999999999999999999)"), None);
}

#[test]
fn decimal_numbers() {
    assert_eq!(parse_decimal(&chars_of("0")), Some(0));
    assert_eq!(parse_decimal(&chars_of("007")), Some(7));
    assert_eq!(parse_decimal(&chars_of("+")), None);
    assert_eq!(parse_decimal(&chars_of("")), None);
    assert_eq!(parse_decimal(&chars_of("-1")), None);
    assert_eq!(parse_decimal(&chars_of("1a")), None);
    let max = usize::MAX.to_string();
    assert_eq!(parse_decimal(&chars_of(&max)), Some(usize::MAX));
    let mut over = max.clone();
    over.push('0');
    assert_eq!(parse_decimal(&chars_of(&over)), None);
}

#[test]
fn style_classes() {
    assert_eq!(get_key_class("_______", 0), "key key-empty");
    assert_eq!(get_key_class("MO(1)", 0), "key key-layer1");
    assert_eq!(get_key_class("LT(2,KC_A)", 0), "key key-layer2");
    assert_eq!(get_key_class("RGB_TOG", 0), "key key-special");
    assert_eq!(get_key_class("KC_A", 0), "key");
    assert_eq!(get_key_class("KC_A", 3), "key key-layer3");
    assert_eq!(class_name_of(KeyClass::LayerColor(120)), "key key-layer120");
    assert_eq!(class_name_of(KeyClass::LayerRef(0)), "key key-layer0");
}

#[test]
fn text_helpers() {
    assert_eq!(string_of(&chars_of("héllo")), "héllo");
    assert_eq!(string_of(&trimmed(&chars_of(" \t a b\u{3000}\r\n"))), "a b");
    assert!(trimmed(&chars_of(" \t ")).is_empty());
    assert!(is_whitespace('\u{85}'));
    assert!(!is_whitespace('\u{200b}'));
    assert!(has_substring(&chars_of("abcabd"), &chars_of("abd")));
    assert!(has_substring(&chars_of("abc"), &chars_of("")));
    assert!(!has_substring(&chars_of("abc"), &chars_of("abcd")));
    for c in 0u32..0x3100 {
        if let Some(ch) = char::from_u32(c) {
            assert_eq!(is_whitespace(ch), ch.is_whitespace());
        }
    }
}

#[test]
fn lines_as_the_standard_library_splits_them() {
    for text in ["", "a", "a\n", "a\nb", "a\r\nb\r\n", "\n\na\r", "a\r\r\n\r", "\r\n", "x\n\n"] {
        let got: Vec<String> = split_lines(&chars_of(text)).iter().map(|l| string_of(l)).collect();
        let want: Vec<String> = text.lines().map(|l| l.to_string()).collect();
        assert_eq!(got, want);
    }
}

#[test]
fn parse_without_the_array_is_empty() {
    assert!(parse_layers("").unwrap().is_empty());
    let text = "int x;\n  [0] = LAYOUT(\n KC_A, KC_B\n ),\n};\n";
    assert!(parse_layers(text).unwrap().is_empty());
}

#[test]
fn parse_numbers_layers_in_source_order() {
    let text = "const uint16_t PROGMEM keymaps[][MATRIX_ROWS][MATRIX_COLS] = {\n\
                [0] = LAYOUT(\n KC_A, KC_B,\n KC_C\n ),\n\
                [1] = LAYOUT_split_3x5_3 (\n MO(1), LT(2,KC_A)\n ),\n\
                [2] = LAYOUT_x(\n _______\n )\n\
                };\n\
                [3] = LAYOUT(\n KC_Z\n ),\n";
    let layers = parse_layers(text).unwrap();
    assert_eq!(layers.len(), 3);
    for (i, layer) in layers.iter().enumerate() {
        assert_eq!(layer.index, i);
    }
    assert_eq!(layers[0].keys, vec![row_of(&["KC_A", "KC_B"]), row_of(&["KC_C"])]);
    assert_eq!(layers[1].keys, vec![row_of(&["MO(1)", "LT(2,KC_A)"])]);
    assert_eq!(layers[2].keys, vec![row_of(&["_______"])]);
}

#[test]
fn parse_drops_a_layer_without_rows() {
    let text = "const uint16_t PROGMEM keymaps[] = {\n\
                LAYOUT(\n KC_A\n ),\n\
                LAYOUT(\n // nothing\n\n ),\n\
                LAYOUT(\n KC_B\n ),\n\
                };\n";
    let layers = parse_layers(text).unwrap();
    assert_eq!(layers.len(), 2);
    assert_eq!(layers[0].index, 0);
    assert_eq!(layers[1].index, 1);
    assert_eq!(layers[1].keys, vec![row_of(&["KC_B"])]);
}

#[test]
fn parse_ignores_an_unterminated_layer() {
    let text = "const uint16_t PROGMEM keymaps[] = {\n\
                LAYOUT(\n KC_A\n ),\n\
                LAYOUT(\n KC_B\n";
    let layers = parse_layers(text).unwrap();
    assert_eq!(layers.len(), 1);
    assert_eq!(layers[0].keys, vec![row_of(&["KC_A"])]);
}

#[test]
fn parse_array_close_inside_a_layer_is_a_row() {
    let text = "const uint16_t PROGMEM keymaps[] = {\n\
                LAYOUT(\n};\n KC_A\n)\n};\nLAYOUT(\nKC_B\n),\n";
    let layers = parse_layers(text).unwrap();
    assert_eq!(layers.len(), 1);
    assert_eq!(layers[0].keys, vec![row_of(&["};"]), row_of(&["KC_A"])]);
}

#[test]
fn parse_needs_the_macro_name_before_the_parenthesis() {
    let text = "const uint16_t PROGMEM keymaps[] = {\n\
                LAYOUT_ (\n KC_A\n ),\n\
                MYLAYOUT_é9 \t(\n KC_B\n ),\n\
                };\n";
    let layers = parse_layers(text).unwrap();
    assert_eq!(layers.len(), 1);
    assert_eq!(layers[0].keys, vec![row_of(&["KC_B"])]);
}

#[test]
fn parser_steps() {
    let st = ParserState::new();
    assert_eq!(st.mode, Mode::Outside);
    let line = chars_of("LAYOUT(");
    assert!(!st.needs_matcher(&line));
    let st = st.step(&line, true);
    assert_eq!(st.mode, Mode::Outside);
    let marker = chars_of("const uint16_t PROGMEM keymaps[] = {");
    assert!(st.needs_matcher(&marker));
    let st = st.step(&marker, false);
    assert_eq!(st.mode, Mode::InArray);
    let st = st.step(&line, true);
    assert_eq!(st.mode, Mode::InLayer);
    let st = st.step(&chars_of("KC_A, KC_B"), false);
    assert_eq!(st.rows.len(), 1);
    let st = st.step(&chars_of("),"), false);
    assert_eq!(st.mode, Mode::InArray);
    assert_eq!(st.layers.len(), 1);
    assert!(st.rows.is_empty());
    let close = chars_of("};");
    assert!(!st.needs_matcher(&close));
    let st = st.step(&close, false);
    assert_eq!(st.mode, Mode::Finished);
    let st = st.step(&line, true);
    assert_eq!(st.mode, Mode::Finished);
}

#[test]
fn base_layer_round_trip() {
    let layers = parse_layers(&base_layer_source()).unwrap();
    assert_eq!(layers.len(), 1);
    let counts: Vec<usize> = layers[0].keys.iter().map(|r| r.len()).collect();
    assert_eq!(counts, vec![12, 12, 12, 8]);
    let placed = layout(&layers).unwrap();
    assert_eq!(placed.height, 20 + (4 * (60 + 5) + 50) + 120);
    // the longest labels, LT(2,KC_SPC) and LT(3,KC_ESC), have 12 characters
    assert_eq!(placed.key_width, 12 * 7 + 20);
    assert_eq!(placed.width, 40 + 8 * 109 + 40 + 6 * 109);
    assert_eq!(placed.layers.len(), 1);
    let keys: Vec<_> = placed.layers[0].rows.iter().flatten().collect();
    assert_eq!(keys.len(), 44);
    // one unassigned key stands on the right half of a row above the bottom
    // row and is left out; the one in the bottom row is drawn
    assert_eq!(keys.iter().filter(|k| k.drawn).count(), 43);
    let hidden = &placed.layers[0].rows[2][9];
    assert_eq!(hidden.label, "_______");
    assert!(!hidden.drawn);
    assert_eq!(hidden.class, KeyClass::Empty);
    let bottom = &placed.layers[0].rows[3][6];
    assert_eq!(bottom.label, "_______");
    assert!(bottom.drawn);
}

#[test]
fn layout_places_every_key() {
    let layers = vec![
        Layer { index: 0, keys: vec![row_of(&["KC_A"; 13]), vec![], vec![], row_of(&["_"; 9]), row_of(&["KC_Z"])] },
        Layer { index: 1, keys: vec![row_of(&["_", "KC_B"])] },
    ];
    let placed = layout(&layers).unwrap();
    assert_eq!(placed.key_width, 60);
    assert_eq!(placed.width, 40 + 14 * 65 + 40);
    assert_eq!(placed.height, 20 + 2 * 430);
    let first = &placed.layers[0];
    assert_eq!((first.index, first.title_x, first.title_y), (0, 20, 20));
    assert_eq!(first.title, "Layer 0");
    assert_eq!(first.rows.len(), 4);
    let row = &first.rows[0];
    assert_eq!((row[0].x, row[0].y, row[0].width, row[0].height), (20, 60, 60, 60));
    assert_eq!(row[5].x, 20 + 5 * 65);
    let right = 20 + 8 * 65 + 40;
    assert_eq!(row[6].x, right);
    assert_eq!(row[11].x, right + 5 * 65);
    assert_eq!(row[12].x, right + 6 * 65);
    assert_eq!(row[12].class, KeyClass::Normal);
    let bottom = &first.rows[3];
    assert_eq!(bottom[0].y, 60 + 3 * 65);
    assert_eq!(bottom[0].x, 20 + 2 * 65);
    assert_eq!(bottom[4].x, 20 + 6 * 65);
    assert_eq!(bottom[5].x, right - 65);
    assert_eq!(bottom[7].x, right + 65);
    assert_eq!(bottom[8].x, right + 3 * 65);
    assert!(bottom.iter().all(|k| k.drawn && k.class == KeyClass::Empty));
    let second = &placed.layers[1];
    assert_eq!((second.index, second.title_y), (1, 20 + 420));
    assert_eq!(second.title, "Layer 1");
    assert_eq!(second.rows[0][0].y, 20 + 420 + 40);
    assert_eq!(second.rows[0][0].class, KeyClass::Empty);
    assert!(second.rows[0][0].drawn);
    assert_eq!(second.rows[0][1].class, KeyClass::LayerColor(1));
}

#[test]
fn layout_without_keys_uses_the_default_label_length() {
    let placed = layout(&[]).unwrap();
    assert_eq!(placed.key_width, 8 * 7 + 20);
    assert_eq!(placed.width, 40 + 14 * 81 + 40);
    assert_eq!(placed.height, 20);
    assert!(placed.layers.is_empty());
    let blank = vec![Layer { index: 0, keys: vec![row_of(&[""])] }];
    assert_eq!(layout(&blank).unwrap().key_width, 60);
}

#[test]
fn layout_is_repeatable() {
    let layers = parse_layers(&base_layer_source()).unwrap();
    let a = format!("{:?}", layout(&layers).unwrap());
    let b = format!("{:?}", layout(&layers.clone()).unwrap());
    assert_eq!(a, b);
}

#[test]
fn layout_refuses_what_is_beyond_the_limit() {
    let long = "x".repeat(LIMIT + 1);
    let layers = vec![Layer { index: 0, keys: vec![vec![long]] }];
    assert!(layout(&layers).is_none());
    let at_limit = vec![Layer { index: 0, keys: vec![vec!["x".repeat(LIMIT)]] }];
    assert_eq!(layout(&at_limit).unwrap().key_width, LIMIT as i64 * 7 + 20);
}

#[test]
fn canvas_grows_with_labels_and_layers() {
    let mut last_w = 0;
    let mut last_h = 0;
    for n in 0..40usize {
        let w = canvas_width(key_width(n));
        let h = canvas_height(n);
        assert!(w >= last_w);
        assert!(h >= last_h);
        last_w = w;
        last_h = h;
    }
    assert_eq!(key_width(5), 60);
    assert_eq!(key_width(6), 62);
    assert_eq!(canvas_height(3), 20 + 3 * 430);
}

#[test]
fn keyboard_shape() {
    for r in 0..3 {
        let s = geometry(r);
        assert_eq!((s.left_count, s.left_offset, s.right_count, s.right_offset), (6, 0, 6, 0));
    }
    let s = geometry(3);
    assert_eq!((s.left_count, s.left_offset, s.right_count, s.right_offset), (5, 2, 3, -1));
}

#[test]
fn key_counts_of_a_layer() {
    let layers = parse_layers(&base_layer_source()).unwrap();
    assert_eq!(key_counts(&layers[0]), KeyCounts { total: 44, assigned: 42, unassigned: 2 });
    let none = Layer { index: 0, keys: vec![vec![], row_of(&["_", "__"])] };
    assert_eq!(key_counts(&none), KeyCounts { total: 2, assigned: 0, unassigned: 2 });
    let bare = Layer { index: 3, keys: vec![] };
    assert_eq!(key_counts(&bare), KeyCounts { total: 0, assigned: 0, unassigned: 0 });
}

#[test]
fn labels_escaped_for_markup() {
    assert_eq!(escape_label("KC_A"), "KC_A");
    assert_eq!(escape_label("<&>\"'"), "&lt;&amp;&gt;&quot;&apos;");
    assert_eq!(escape_label("S(KC_7) & é"), "S(KC_7) &amp; é");
    assert_eq!(escape_label(""), "");
}
