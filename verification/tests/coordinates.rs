use ratrix::RatrixError;
use ratrix::convert_position;

#[test]
fn converts_every_letter_and_digit() {
    let letters = ['A', 'B', 'C', 'D', 'E', 'F', 'G', 'H'];
    let digits = ['1', '2', '3', '4', '5', '6', '7', '8'];
    for i in 0..8u32 {
        assert_eq!(convert_position(letters[i as usize]), Ok(i));
        assert_eq!(convert_position(digits[i as usize]), Ok(i));
    }
}

#[test]
fn rejects_characters_outside_the_alphabet() {
    for c in ['I', 'Z', '0', '9', 'a', 'h', ' ', ',', '-', '\n'] {
        assert_eq!(convert_position(c), Err(RatrixError::InvalidCoordinate));
    }
}
