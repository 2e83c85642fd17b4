use life_session::rle::decode;
use life_session::rle::DecodeError;

#[test]
fn single_cell_without_margin() {
    let (w, h, cells) = decode("o!", 0).unwrap();
    assert_eq!((w, h), (1, 1));
    assert_eq!(cells, vec![true]);
}

#[test]
fn short_rows_are_padded_with_dead_cells() {
    let (w, h, cells) = decode("2o$o!", 0).unwrap();
    assert_eq!((w, h), (2, 2));
    assert_eq!(cells, vec![true, true, true, false]);
}

#[test]
fn margin_pads_dead_cells_on_all_sides() {
    let (w, h, cells) = decode("o!", 1).unwrap();
    assert_eq!((w, h), (3, 3));
    let alive: Vec<usize> = (0..9).filter(|&i| cells[i]).collect();
    assert_eq!(alive, vec![4]);
}

#[test]
fn comments_header_and_whitespace_are_ignored() {
    let plain = decode("bob$2bo$3o!", 1).unwrap();
    let framed = decode(
        "#N Glider\n#C a well-known spaceship\nx = 3, y = 3, rule = B3/S23\nbo b $2b o$\n3o!",
        1,
    )
    .unwrap();
    assert_eq!(plain, framed);
}

#[test]
fn run_counts_expand_both_cells_and_rows() {
    let (w, h, cells) = decode("o2$o!", 0).unwrap();
    assert_eq!((w, h), (1, 3));
    assert_eq!(cells, vec![true, false, true]);
    let (w, h, cells) = decode("3b2o!", 0).unwrap();
    assert_eq!((w, h), (5, 1));
    assert_eq!(cells, vec![false, false, false, true, true]);
}

#[test]
fn everything_after_the_terminator_is_ignored() {
    let (w, h, cells) = decode("o! this is trailing junk ~~~", 0).unwrap();
    assert_eq!((w, h), (1, 1));
    assert_eq!(cells, vec![true]);
}

#[test]
fn unknown_character_is_rejected() {
    assert_eq!(decode("a!", 0).unwrap_err(), DecodeError::BadChar);
    assert_eq!(
        DecodeError::BadChar.message(),
        "unrecognized character in pattern"
    );
}

#[test]
fn missing_terminator_is_rejected() {
    assert_eq!(decode("bob", 0).unwrap_err(), DecodeError::Unterminated);
    assert_eq!(decode("", 100).unwrap_err(), DecodeError::Unterminated);
    assert_eq!(
        DecodeError::Unterminated.message(),
        "pattern is not terminated"
    );
}

#[test]
fn pattern_without_cells_is_rejected() {
    assert_eq!(decode("!", 0).unwrap_err(), DecodeError::EmptyPattern);
    assert_eq!(decode("$!", 7).unwrap_err(), DecodeError::EmptyPattern);
    assert_eq!(DecodeError::EmptyPattern.message(), "pattern has no cells");
}

#[test]
fn oversized_run_count_is_rejected() {
    assert_eq!(
        decode("99999999999999999999o!", 0).unwrap_err(),
        DecodeError::CountTooLarge
    );
    assert_eq!(DecodeError::CountTooLarge.message(), "run count too large");
}

#[test]
fn grid_that_cannot_fit_is_rejected() {
    assert_eq!(decode("o!", usize::MAX).unwrap_err(), DecodeError::TooLarge);
    assert_eq!(
        decode("o!", usize::MAX / 2).unwrap_err(),
        DecodeError::TooLarge
    );
    assert_eq!(
        DecodeError::TooLarge.message(),
        "pattern too large to render"
    );
}

#[test]
fn explicit_zero_count_means_a_run_of_one() {
    let (w, h, cells) = decode("0o!", 0).unwrap();
    assert_eq!((w, h), (1, 1));
    assert_eq!(cells, vec![true]);
}
