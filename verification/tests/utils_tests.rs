use sstp::utils::{
    approval_prompt, approval_prompt_with, send_help_text_with, calc_chunks, gen_room_key, has_hyphen, room_key_from_phrase, relay_addr_or_default, send_help_text,
    split_into_chunks, try_validate_filepath, validate_filepath, FilepathError, CHUNK_SIZE,
};

#[test]
fn test_gen_room_key() {
    // Make sure the room key has the right length
    let phrase = gen_room_key();
    assert_eq!(phrase.split('-').collect::<Vec<&str>>().len(), 3);
}

#[test]
fn room_key_has_no_spaces_and_lowercase_words() {
    for _ in 0..20 {
        let key = gen_room_key();
        assert!(!key.contains(' '));
        assert!(!key.is_empty());
        assert!(key.chars().all(|c| c.is_ascii_lowercase() || c == '-'));
        assert!(!key.starts_with('-'));
        assert!(!key.ends_with('-'));
    }
}

#[test]
fn room_key_from_phrase_marks_word_boundaries() {
    assert_eq!(room_key_from_phrase("abacus absurd acid"), "abacus-absurd-acid");
    assert_eq!(room_key_from_phrase("t-shirt yo-yo able"), "tshirt-yoyo-able");
    assert_eq!(room_key_from_phrase(""), "");
}

#[test]
fn has_hyphen_finds_hyphens() {
    assert!(has_hyphen("drop-down"));
    assert!(!has_hyphen("abacus absurd"));
    assert!(!has_hyphen(""));
}

#[test]
fn calc_chunks_rounds_up() {
    assert_eq!(calc_chunks(0), 0);
    assert_eq!(calc_chunks(1), 1);
    assert_eq!(calc_chunks(126), 1);
    assert_eq!(calc_chunks(999_999), 1);
    assert_eq!(calc_chunks(1_000_000), 1);
    assert_eq!(calc_chunks(1_000_001), 2);
    assert_eq!(calc_chunks(2_900_000), 3);
    assert_eq!(calc_chunks(100_000_000), 100);
    assert_eq!(calc_chunks(u64::MAX), 18_446_744_073_710);
}

#[test]
fn split_into_chunks_covers_the_data() {
    let data: Vec<u8> = (0..2_500_001u32).map(|i| (i % 251) as u8).collect();
    let chunks = split_into_chunks(&data);
    assert_eq!(chunks.len() as u64, calc_chunks(data.len() as u64));
    assert_eq!(chunks.len(), 3);
    assert_eq!(chunks[0].len(), CHUNK_SIZE);
    assert_eq!(chunks[1].len(), CHUNK_SIZE);
    assert_eq!(chunks[2].len(), 500_001);
    let joined: Vec<u8> = chunks.concat();
    assert_eq!(joined, data);
}

#[test]
fn split_into_chunks_edge_cases() {
    assert!(split_into_chunks(&[]).is_empty());
    assert_eq!(split_into_chunks(&[7u8]), vec![vec![7u8]]);
    let exact = vec![1u8; CHUNK_SIZE];
    let chunks = split_into_chunks(&exact);
    assert_eq!(chunks.len(), 1);
    assert_eq!(chunks[0], exact);
}

#[test]
fn relay_addr_defaults_to_public_relay() {
    assert_eq!(relay_addr_or_default(None), "139.177.178.244:8004");
    assert_eq!(relay_addr_or_default(Some("127.0.0.1:8003")), "127.0.0.1:8003");
}

#[test]
fn validate_filepath_names_the_file() {
    assert_eq!(validate_filepath("dir/report.pdf", true), "report.pdf");
    assert_eq!(validate_filepath("notes.txt", true), "notes.txt");
    assert_eq!(validate_filepath("/tmp/a/b.tar.gz", true), "b.tar.gz");
}

#[test]
fn try_validate_filepath_reports_the_failing_condition() {
    assert_eq!(try_validate_filepath("dir/report.pdf", true), Ok("report.pdf".to_string()));
    assert_eq!(try_validate_filepath("missing.txt", false), Err(FilepathError::NotAFile));
    assert_eq!(try_validate_filepath("/", true), Err(FilepathError::NoFileName));
    assert_eq!(try_validate_filepath("dir/..", true), Err(FilepathError::NoFileName));
}

#[test]
fn approval_prompt_shows_name_and_size() {
    assert_eq!(approval_prompt("a.txt", 999), "Accept a.txt (999 B)?");
    assert_eq!(approval_prompt("a.txt", 0), "Accept a.txt (0 B)?");
    assert_eq!(approval_prompt("photo.png", 1500), "Accept photo.png (1.5 KB)?");
    assert_eq!(approval_prompt("big.iso", 2_900_000), "Accept big.iso (2.9 MB)?");
    assert_eq!(approval_prompt("m.bin", 1_000_000), "Accept m.bin (1000.0 KB)?");
    assert_eq!(approval_prompt("k.bin", 1000), "Accept k.bin (1.0 KB)?");
}

#[test]
fn prompt_and_help_with_given_size_text() {
    assert_eq!(approval_prompt_with("a.txt", "1.5 KB"), "Accept a.txt (1.5 KB)?");
    assert_eq!(
        send_help_text_with("a.txt", "2.9 MB", "x-y-z"),
        "Sending 'a.txt' (2.9 MB)\nCode is: x-y-z\nIn the other computer run\n\nsstp get x-y-z\n\n"
    );
}

#[test]
fn send_help_text_shows_code_and_command() {
    assert_eq!(
        send_help_text("a.txt", 126, "alpha-beta-gamma"),
        "Sending 'a.txt' (126 B)\nCode is: alpha-beta-gamma\nIn the other computer run\n\nsstp get alpha-beta-gamma\n\n"
    );
}
