use forum_scraper::recode::{needs_recoding, recode_latin1};

#[test]
fn latin1_bytes_become_their_characters() {
    assert_eq!(recode_latin1(&[99, 97, 102, 233]), "café");
    assert_eq!(recode_latin1(&[0xe6, 0xf8, 0xe5, 0xc6, 0xd8, 0xc5]), "æøåÆØÅ");
    assert_eq!(recode_latin1(&[]), "");
    let all: Vec<u8> = (0..=255u8).collect();
    let text = recode_latin1(&all);
    assert_eq!(text.chars().count(), 256);
    assert!(text.chars().zip(all.iter()).all(|(c, b)| c as u32 == *b as u32));
}

#[test]
fn pictures_are_left_alone() {
    assert!(!needs_recoding("../volvo240.dk/a.jpg"));
    assert!(!needs_recoding("b.png"));
    assert!(needs_recoding("index.html"));
}
