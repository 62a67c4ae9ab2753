use http_server::dolphin::{play_time, Dolphin, DolphinError};

fn dolphin(name: &str, age: u8, hungry: bool) -> Dolphin {
    Dolphin { name: name.into(), age, hungry }
}

#[test]
fn the_four_dolphins_of_the_show() {
    assert_eq!(play_time(&dolphin("Augustinius", 7, false)), Err(DolphinError::LongName));
    assert_eq!(play_time(&dolphin("Bitty", 2, true)), Err(DolphinError::TooYoung));
    assert_eq!(play_time(&dolphin("Carson", 5, true)), Err(DolphinError::Hungry));
    assert_eq!(
        play_time(&dolphin("Devin", 6, false)),
        Ok(vec![
            "Hi, my name is Devin and I'm a Dolphin!".to_string(),
            "Yippee, I'm doing a flip!".to_string(),
            "Nice to meet you, let's shake hands!".to_string(),
        ])
    );
}

#[test]
fn the_first_refusal_ends_the_show() {
    assert_eq!(play_time(&dolphin("Augustinius", 2, true)), Err(DolphinError::LongName));
    assert_eq!(play_time(&dolphin("Augustinius", 2, false)), Err(DolphinError::LongName));
    assert_eq!(play_time(&dolphin("Bitty", 3, false)), Err(DolphinError::TooYoung));
}

#[test]
fn name_of_ten_bytes_is_said() {
    let ten = dolphin("Maximilian", 9, false);
    assert_eq!(
        ten.say_your_name(),
        Ok("Hi, my name is Maximilian and I'm a Dolphin!".to_string())
    );
    let eleven = dolphin("Maximiliana", 9, false);
    assert_eq!(eleven.say_your_name(), Err(DolphinError::LongName));
    assert_eq!(
        dolphin("", 0, true).say_your_name(),
        Ok("Hi, my name is  and I'm a Dolphin!".to_string())
    );
}

#[test]
fn name_length_is_counted_in_bytes() {
    let six_characters = dolphin("\u{4e2d}\u{6587}\u{4e2d}\u{6587}ab", 9, false);
    assert_eq!(six_characters.name.chars().count(), 6);
    assert_eq!(six_characters.say_your_name(), Err(DolphinError::LongName));
    let ten_bytes = dolphin("\u{4e2d}\u{6587}\u{4e2d}a", 9, false);
    assert_eq!(
        ten_bytes.say_your_name(),
        Ok("Hi, my name is \u{4e2d}\u{6587}\u{4e2d}a and I'm a Dolphin!".to_string())
    );
}

#[test]
fn flip_from_the_age_of_four() {
    assert_eq!(dolphin("A", 0, false).flip(), Err(DolphinError::TooYoung));
    assert_eq!(dolphin("A", 3, false).flip(), Err(DolphinError::TooYoung));
    assert_eq!(dolphin("A", 4, true).flip(), Ok("Yippee, I'm doing a flip!".to_string()));
    assert_eq!(dolphin("A", 255, false).flip(), Ok("Yippee, I'm doing a flip!".to_string()));
}

#[test]
fn shake_hands_unless_hungry() {
    assert_eq!(dolphin("A", 1, true).shake_hands(), Err(DolphinError::Hungry));
    assert_eq!(
        dolphin("Augustinius", 1, false).shake_hands(),
        Ok("Nice to meet you, let's shake hands!".to_string())
    );
}

#[test]
fn refusals_in_words() {
    assert_eq!(DolphinError::Hungry.message(), "Dolphin is Hungry");
    assert_eq!(DolphinError::TooYoung.message(), "The dolphin is too young");
    assert_eq!(
        DolphinError::LongName.message(),
        "The dolphin's name is too long and annoying to say"
    );
}
