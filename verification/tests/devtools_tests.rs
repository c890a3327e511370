use intent_database::devtools::{
    line_count_violation, line_length_violation, stub_reply, MAX_FILE_LINES, MAX_LINE_LEN,
};

#[test]
fn long_lines_are_reported_by_characters() {
    let ok = "x".repeat(100);
    assert_eq!(line_length_violation(1, &ok), None);
    let long = "y".repeat(101);
    assert_eq!(line_length_violation(7, &long), Some("line 7: length 101 > 100".to_string()));
    // 100 multi-byte characters are still 100 characters
    let wide = "é".repeat(100);
    assert_eq!(line_length_violation(2, &wide), None);
    assert_eq!(line_length_violation(3, ""), None);
    assert_eq!(MAX_LINE_LEN, 100);
}

#[test]
fn long_files_are_reported() {
    assert_eq!(line_count_violation(0), None);
    assert_eq!(line_count_violation(300), None);
    assert_eq!(line_count_violation(301), Some("file has 301 lines > 300".to_string()));
    assert_eq!(MAX_FILE_LINES, 300);
}

#[test]
fn stub_echoes_generation_posts() {
    let req = "POST /gemini HTTP/1.1\r\nHost: x\r\n\r\n{\"q\":\"hé\"}";
    assert_eq!(
        stub_reply(req),
        "HTTP/1.1 200 OK\r\nContent-Type: text/plain\r\nContent-Length: 11\r\n\r\n{\"q\":\"hé\"}"
    );
    // only the first blank line ends the headers
    let twice = "POST /gemini\r\n\r\na\r\n\r\nb";
    assert_eq!(
        stub_reply(twice),
        "HTTP/1.1 200 OK\r\nContent-Type: text/plain\r\nContent-Length: 6\r\n\r\na\r\n\r\nb"
    );
    let empty_body = "POST /gemini HTTP/1.1\r\n\r\n";
    assert_eq!(
        stub_reply(empty_body),
        "HTTP/1.1 200 OK\r\nContent-Type: text/plain\r\nContent-Length: 0\r\n\r\n"
    );
}

#[test]
fn stub_rejects_other_requests() {
    assert_eq!(
        stub_reply("POST /gemini HTTP/1.1\r\nHost: x\r\n"),
        "HTTP/1.1 400 Bad Request\r\nContent-Length: 0\r\n\r\n"
    );
    assert_eq!(stub_reply("GET / HTTP/1.1\r\n\r\n"), "HTTP/1.1 404 Not Found\r\nContent-Length: 0\r\n\r\n");
    assert_eq!(stub_reply("POST /gem"), "HTTP/1.1 404 Not Found\r\nContent-Length: 0\r\n\r\n");
    assert_eq!(stub_reply(""), "HTTP/1.1 404 Not Found\r\nContent-Length: 0\r\n\r\n");
}

#[test]
fn lint_file_lists_messages_in_order() {
    let mut lines: Vec<Result<String, String>> = vec![
        Ok("short".to_string()),
        Ok("x".repeat(101)),
        Err("stream did not contain valid UTF-8".to_string()),
    ];
    assert_eq!(
        intent_database::devtools::lint_file(&lines),
        vec![
            "line 2: length 101 > 100".to_string(),
            "line 3 read error: stream did not contain valid UTF-8".to_string(),
        ]
    );
    lines.extend((0..298).map(|_| Ok(String::new())));
    let msgs = intent_database::devtools::lint_file(&lines);
    assert_eq!(msgs.len(), 3);
    assert_eq!(msgs[2], "file has 301 lines > 300");
    assert!(intent_database::devtools::lint_file(&Vec::new()).is_empty());
}
