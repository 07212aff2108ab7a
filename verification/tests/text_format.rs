use flatsql::text::{
    append_text_line, contains_char, first_line, join_text, read_lines, split_text,
};
use flatsql::utils::{read_header, table_file_name};

fn strings(texts: &[&str]) -> Vec<String> {
    texts.iter().map(|text| text.to_string()).collect()
}

#[test]
fn splitting_yields_one_piece_more_than_separators() {
    assert_eq!(split_text("", ','), strings(&[""]));
    assert_eq!(split_text("a", ','), strings(&["a"]));
    assert_eq!(split_text("a,b", ','), strings(&["a", "b"]));
    assert_eq!(split_text(",", ','), strings(&["", ""]));
    assert_eq!(split_text("a,,b,", ','), strings(&["a", "", "b", ""]));
    assert_eq!(split_text(",a", ','), strings(&["", "a"]));
    assert_eq!(split_text("id,name,age", ','), strings(&["id", "name", "age"]));
    assert_eq!(split_text("\"a,b\"", ','), strings(&["\"a", "b\""]));
    assert_eq!(split_text("é,ü,日本", ','), strings(&["é", "ü", "日本"]));
}

#[test]
fn splitting_is_what_the_standard_library_does() {
    for text in ["", ",", "a", "a,b", ",,", "a,,b,", "x,y\nz,w", " , ", "日,本"] {
        let expected: Vec<String> = text.split(',').map(String::from).collect();
        assert_eq!(split_text(text, ','), expected, "{text:?}");
    }
}

#[test]
fn joining_puts_the_separator_between_pieces() {
    assert_eq!(join_text(&strings(&[]), ','), "");
    assert_eq!(join_text(&strings(&[""]), ','), "");
    assert_eq!(join_text(&strings(&["a"]), ','), "a");
    assert_eq!(join_text(&strings(&["a", "b"]), ','), "a,b");
    assert_eq!(join_text(&strings(&["", ""]), ','), ",");
    assert_eq!(join_text(&strings(&["id", "name", "age"]), ','), "id,name,age");
}

#[test]
fn joining_undoes_splitting() {
    for text in ["", ",", "a", "a,b", ",,", "a,,b,", "x,y\nz,w"] {
        assert_eq!(join_text(&split_text(text, ','), ','), text);
    }
}

#[test]
fn splitting_undoes_joining_of_clean_pieces() {
    for pieces in [strings(&["a"]), strings(&["a", "b"]), strings(&["", "", ""]), strings(&[""])] {
        assert_eq!(split_text(&join_text(&pieces, ','), ','), pieces);
    }
}

#[test]
fn lines_of_a_file() {
    assert_eq!(read_lines(""), strings(&[]));
    assert_eq!(read_lines("a"), strings(&["a"]));
    assert_eq!(read_lines("a\n"), strings(&["a"]));
    assert_eq!(read_lines("a\nb"), strings(&["a", "b"]));
    assert_eq!(read_lines("a\nb\n"), strings(&["a", "b"]));
    assert_eq!(read_lines("\n"), strings(&[""]));
    assert_eq!(read_lines("a\n\nb\n"), strings(&["a", "", "b"]));
    assert_eq!(read_lines("a\n\n"), strings(&["a", ""]));
    assert_eq!(read_lines("a\r\nb"), strings(&["a\r", "b"]));
}

#[test]
fn appending_a_line() {
    assert_eq!(append_text_line("", "1,alice"), "1,alice\n");
    assert_eq!(append_text_line("id,name", "1,alice"), "id,name\n1,alice\n");
    assert_eq!(append_text_line("id,name\n", "1,alice"), "id,name\n1,alice\n");
    assert_eq!(append_text_line("id\n", ""), "id\n\n");
    assert_eq!(append_text_line("id\n\n", "x"), "id\n\nx\n");
}

#[test]
fn appending_adds_exactly_one_line() {
    for content in ["", "h", "h\n", "h\na", "h\na\n", "h\n\n"] {
        let mut expected = read_lines(content);
        expected.push("new".to_string());
        assert_eq!(read_lines(&append_text_line(content, "new")), expected, "{content:?}");
    }
}

#[test]
fn looking_for_a_character() {
    assert!(contains_char("a,b", ','));
    assert!(!contains_char("ab", ','));
    assert!(!contains_char("", ','));
    assert!(contains_char("ab\n", '\n'));
    assert!(contains_char("日本", '本'));
}

#[test]
fn first_line_of_a_file() {
    assert_eq!(first_line(""), None);
    assert_eq!(first_line("\n"), Some(String::new()));
    assert_eq!(first_line("id,name"), Some("id,name".to_string()));
    assert_eq!(first_line("id,name\n"), Some("id,name".to_string()));
    assert_eq!(first_line("id,name\n1,ann\n2,bob"), Some("id,name".to_string()));
    assert_eq!(first_line("\nid"), Some(String::new()));
}

#[test]
fn first_line_is_the_first_of_the_lines() {
    for content in ["", "a", "a\n", "\n", "\n\n", "a\nb", "é,ü\n日本\n"] {
        assert_eq!(first_line(content), read_lines(content).first().cloned(), "{content:?}");
    }
}

#[test]
fn header_of_a_file() {
    assert_eq!(read_header(""), strings(&[]));
    assert_eq!(read_header("id,name\n1,ann\n"), strings(&["id", "name"]));
    assert_eq!(read_header("id"), strings(&["id"]));
    assert_eq!(read_header("\n1\n"), strings(&[""]));
    assert_eq!(read_header("a,,b\n"), strings(&["a", "", "b"]));
}

#[test]
fn table_files_end_in_txt() {
    assert_eq!(table_file_name(&"users".to_string()), "users.txt");
    assert_eq!(table_file_name(&String::new()), ".txt");
    assert_eq!(table_file_name(&"a.b".to_string()), "a.b.txt");
}
