use poslib::console::{Console, LINE_WIDTH};
use poslib::queue::CONSOLE_LINES;
use poslib::text::{
    chars_of, split_at_line_breaks, split_into_chunks, string_of, trimmed_len, wrap, wrap_chars,
};

fn lines_of(console: &Console) -> Vec<String> {
    let mut lines = Vec::new();
    let mut n = 0;
    while let Some(line) = console.line(n) {
        lines.push(line);
        n += 1;
    }
    lines
}

#[test]
fn the_characters_of_a_string() {
    assert_eq!(chars_of("abc"), vec!['a', 'b', 'c']);
    assert_eq!(chars_of(""), Vec::<char>::new());
    assert_eq!(chars_of("h\u{e9}\n"), vec!['h', '\u{e9}', '\n']);
}

#[test]
fn a_string_from_a_stretch_of_characters() {
    let chars = vec!['h', 'e', 'l', 'l', 'o'];
    assert_eq!(string_of(&chars, 0, 5), "hello");
    assert_eq!(string_of(&chars, 1, 4), "ell");
    assert_eq!(string_of(&chars, 2, 2), "");
    assert_eq!(string_of(&chars, 5, 5), "");
}

#[test]
fn white_space_at_the_end_does_not_count() {
    assert_eq!(trimmed_len(&chars_of("hello")), 5);
    assert_eq!(trimmed_len(&chars_of("hello  ")), 5);
    assert_eq!(trimmed_len(&chars_of("hello\n")), 5);
    assert_eq!(trimmed_len(&chars_of("hello \t\r\n \n")), 5);
    assert_eq!(trimmed_len(&chars_of("  hello")), 7);
    assert_eq!(trimmed_len(&chars_of("a b")), 3);
    assert_eq!(trimmed_len(&chars_of("   ")), 0);
    assert_eq!(trimmed_len(&chars_of("")), 0);
    assert_eq!(trimmed_len(&chars_of("x\u{a0}")), 1);
}

#[test]
fn chunks_are_cut_every_n_characters() {
    assert_eq!(split_into_chunks("abcdefg", 3), vec!["abc", "def", "g"]);
    assert_eq!(split_into_chunks("abcdef", 3), vec!["abc", "def"]);
    assert_eq!(split_into_chunks("ab", 3), vec!["ab"]);
    assert_eq!(split_into_chunks("abc", 1), vec!["a", "b", "c"]);
    assert_eq!(split_into_chunks("a\nb", 2), vec!["a\n", "b"]);
}

#[test]
fn an_empty_text_has_no_chunk() {
    assert_eq!(split_into_chunks("", 3), Vec::<String>::new());
}

#[test]
fn chunks_count_characters_not_bytes() {
    assert_eq!(split_into_chunks("h\u{e9}llo", 2), vec!["h\u{e9}", "ll", "o"]);
    assert_eq!(split_into_chunks("\u{4e16}\u{754c}!", 1), vec!["\u{4e16}", "\u{754c}", "!"]);
}

#[test]
fn a_text_splits_at_its_line_breaks() {
    assert_eq!(split_at_line_breaks("a\nb"), vec!["a", "b"]);
    assert_eq!(split_at_line_breaks("abc"), vec!["abc"]);
    assert_eq!(split_at_line_breaks(""), vec![""]);
    assert_eq!(split_at_line_breaks("\n"), vec!["", ""]);
    assert_eq!(split_at_line_breaks("a\n\nb\n"), vec!["a", "", "b", ""]);
    assert_eq!(split_at_line_breaks("\na"), vec!["", "a"]);
}

#[test]
fn wrapping_trims_cuts_and_splits() {
    assert_eq!(wrap("hello", 67), vec!["hello"]);
    assert_eq!(wrap("hello  \n\n", 67), vec!["hello"]);
    assert_eq!(wrap("ab\ncd", 67), vec!["ab", "cd"]);
    assert_eq!(wrap("abcdefg", 3), vec!["abc", "def", "g"]);
    assert_eq!(wrap("abc\ndef", 4), vec!["abc", "", "def"]);
    assert_eq!(wrap("ab\ncdefg", 4), vec!["ab", "c", "defg"]);
    assert_eq!(wrap("", 67), Vec::<String>::new());
    assert_eq!(wrap(" \n ", 67), Vec::<String>::new());
}

#[test]
fn a_new_console_is_empty() {
    let console = Console::new();
    assert_eq!(console.len(), 0);
    assert_eq!(console.line(0), None);
    assert_eq!(console.flush_to_display(), "");
    assert_eq!(CONSOLE_LINES, 15);
    assert_eq!(LINE_WIDTH, 67);
}

#[test]
fn a_short_text_is_one_line() {
    let mut console = Console::new();
    console.print("hello");
    assert_eq!(lines_of(&console), vec!["hello"]);
    assert_eq!(console.len(), 1);
    assert_eq!(console.line(0), Some("hello".to_string()));
    assert_eq!(console.line(1), None);
}

#[test]
fn lines_come_in_the_order_of_printing() {
    let mut console = Console::new();
    console.print("one");
    console.print("two");
    console.print("three");
    assert_eq!(lines_of(&console), vec!["one", "two", "three"]);
}

#[test]
fn two_hundred_characters_take_three_lines() {
    let mut console = Console::new();
    let text = "a".repeat(200);
    console.print(&text);
    let lines = lines_of(&console);
    assert_eq!(lines.len(), 3);
    assert_eq!(lines.len(), (200 + 67 - 1) / 67);
    assert_eq!(lines[0], "a".repeat(67));
    assert_eq!(lines[1], "a".repeat(67));
    assert_eq!(lines[2], "a".repeat(66));
    for line in &lines {
        assert!(line.chars().count() <= 67);
    }
    assert!(console.len() <= CONSOLE_LINES);
}

#[test]
fn a_line_of_exactly_the_width_is_one_line() {
    let mut console = Console::new();
    console.print(&"b".repeat(67));
    assert_eq!(lines_of(&console), vec!["b".repeat(67)]);
    console.print(&"c".repeat(68));
    assert_eq!(lines_of(&console), vec!["b".repeat(67), "c".repeat(67), "c".to_string()]);
}

#[test]
fn line_breaks_start_new_lines() {
    let mut console = Console::new();
    console.print("ab\ncd\n\nef");
    assert_eq!(lines_of(&console), vec!["ab", "cd", "", "ef"]);
}

#[test]
fn a_line_break_after_a_cut_leaves_an_empty_line() {
    let mut console = Console::new();
    let text = format!("{}\ny", "x".repeat(67));
    console.print(&text);
    assert_eq!(lines_of(&console), vec!["x".repeat(67), String::new(), "y".to_string()]);
}

#[test]
fn cuts_count_the_line_breaks_too() {
    let mut console = Console::new();
    let text = format!("ab\n{}", "z".repeat(70));
    console.print(&text);
    assert_eq!(lines_of(&console), vec!["ab".to_string(), "z".repeat(64), "z".repeat(6)]);
}

#[test]
fn white_space_at_the_end_is_not_printed() {
    let mut console = Console::new();
    console.print("done \n\n");
    assert_eq!(lines_of(&console), vec!["done"]);
    console.print("  indented");
    assert_eq!(lines_of(&console), vec!["done", "  indented"]);
}

#[test]
fn printing_nothing_adds_no_line() {
    let mut console = Console::new();
    console.print("kept");
    console.print("");
    console.print("   ");
    console.print("\n\n");
    assert_eq!(lines_of(&console), vec!["kept"]);
}

#[test]
fn the_oldest_line_leaves_when_the_console_is_full() {
    let mut console = Console::new();
    for n in 0..15 {
        console.print(&format!("line {}", n));
    }
    assert_eq!(console.len(), 15);
    assert_eq!(console.line(0), Some("line 0".to_string()));
    console.print("new");
    assert_eq!(console.len(), 15);
    assert_eq!(console.line(0), Some("line 1".to_string()));
    assert_eq!(console.line(13), Some("line 14".to_string()));
    assert_eq!(console.line(14), Some("new".to_string()));
    assert_eq!(console.line(15), None);
}

#[test]
fn as_many_old_lines_leave_as_new_ones_need() {
    let mut console = Console::new();
    for n in 0..14 {
        console.print(&format!("line {}", n));
    }
    console.print("a\nb\nc");
    let lines = lines_of(&console);
    assert_eq!(lines.len(), 15);
    assert_eq!(lines[0], "line 2");
    assert_eq!(lines[11], "line 13");
    assert_eq!(lines[12], "a");
    assert_eq!(lines[13], "b");
    assert_eq!(lines[14], "c");
}

#[test]
fn nothing_leaves_while_there_is_room() {
    let mut console = Console::new();
    for n in 0..12 {
        console.print(&format!("line {}", n));
    }
    console.print("a\nb\nc");
    let lines = lines_of(&console);
    assert_eq!(lines.len(), 15);
    assert_eq!(lines[0], "line 0");
    assert_eq!(lines[14], "c");
}

#[test]
fn a_text_of_more_lines_than_the_console_keeps_its_last_lines() {
    let mut console = Console::new();
    console.print("old");
    console.print("a\nb\nc\nd\ne\nf\ng\nh\ni\nj\nk\nl\nm\nn\no\np\nq\nr\ns\nt");
    let lines = lines_of(&console);
    assert_eq!(lines.len(), 15);
    assert_eq!(
        lines,
        vec!["f", "g", "h", "i", "j", "k", "l", "m", "n", "o", "p", "q", "r", "s", "t"]
    );
}

#[test]
fn a_text_of_exactly_as_many_lines_as_the_console_replaces_everything() {
    let mut console = Console::new();
    console.print("old");
    console.print("a\nb\nc\nd\ne\nf\ng\nh\ni\nj\nk\nl\nm\nn\no");
    let lines = lines_of(&console);
    assert_eq!(
        lines,
        vec!["a", "b", "c", "d", "e", "f", "g", "h", "i", "j", "k", "l", "m", "n", "o"]
    );
}

#[test]
fn the_console_never_holds_more_than_it_keeps() {
    let mut console = Console::new();
    for n in 0..100 {
        console.print(&"w".repeat(n * 7));
        assert!(console.len() <= CONSOLE_LINES);
        assert!(console.lines.len() <= CONSOLE_LINES);
        for line in lines_of(&console) {
            assert!(line.chars().count() <= LINE_WIDTH);
            assert!(!line.contains('\n'));
        }
    }
    assert_eq!(console.len(), 15);
}

#[test]
fn clear_drops_every_line() {
    let mut console = Console::new();
    console.print("a\nb");
    console.clear();
    assert_eq!(console.len(), 0);
    assert_eq!(console.line(0), None);
    console.print("c");
    assert_eq!(lines_of(&console), vec!["c"]);
}

#[test]
fn the_text_to_lay_out_ends_every_line_with_a_break() {
    let mut console = Console::new();
    console.print("a");
    assert_eq!(console.flush_to_display(), "a\n");
    console.print("bc\n\nd");
    assert_eq!(console.flush_to_display(), "a\nbc\n\nd\n");
    assert_eq!(console.len(), 4);
}

#[test]
fn the_text_to_lay_out_holds_all_lines_of_a_full_console() {
    let mut console = Console::new();
    for n in 0..20 {
        console.print(&format!("{}", n));
    }
    assert_eq!(console.flush_to_display(), "5\n6\n7\n8\n9\n10\n11\n12\n13\n14\n15\n16\n17\n18\n19\n");
}

#[test]
fn the_queue_of_the_console_holds_the_lines() {
    let mut console = Console::new();
    console.print("x\ny");
    assert_eq!(console.lines.len(), 2);
    assert_eq!(console.lines.get(0), Some(&"x".to_string()));
    assert_eq!(console.lines.get(1), Some(&"y".to_string()));
    assert_eq!(console.lines.get(2), None);
    assert_eq!(console.lines.capacity(), 15);
}

#[test]
fn wrapping_a_stretch_of_characters_trims_nothing() {
    let chars = chars_of("ab cd  \n");
    assert_eq!(wrap_chars(&chars, 8, 3), vec!["ab ", "cd ", " ", ""]);
    assert_eq!(wrap_chars(&chars, 5, 3), vec!["ab ", "cd"]);
    assert_eq!(wrap_chars(&chars, 5, 67), vec!["ab cd"]);
    assert_eq!(wrap_chars(&chars, 0, 3), Vec::<String>::new());
}

#[test]
fn appended_lines_are_kept_as_they_are() {
    let mut console = Console::new();
    console.append(&vec!["one ".to_string(), String::new(), "t\nwo".to_string()]);
    assert_eq!(lines_of(&console), vec!["one ", "", "t\nwo"]);
    console.append(&Vec::new());
    assert_eq!(console.len(), 3);
}

#[test]
fn appending_drops_the_oldest_lines() {
    let mut console = Console::new();
    let first: Vec<String> = (0..10).map(|n| format!("a{}", n)).collect();
    let second: Vec<String> = (0..10).map(|n| format!("b{}", n)).collect();
    console.append(&first);
    console.append(&second);
    let lines = lines_of(&console);
    assert_eq!(lines.len(), 15);
    assert_eq!(lines[0], "a5");
    assert_eq!(lines[4], "a9");
    assert_eq!(lines[5], "b0");
    assert_eq!(lines[14], "b9");
    let many: Vec<String> = (0..40).map(|n| format!("c{}", n)).collect();
    console.append(&many);
    let lines = lines_of(&console);
    assert_eq!(lines.len(), 15);
    assert_eq!(lines[0], "c25");
    assert_eq!(lines[14], "c39");
}
