use pogoot::drill::{parse_deck, Drill, Prompt};

const DECK: &str = "dog##perro####cat##gato####bird##pajaro####fish##pez####no back####a##b##c####";

#[test]
fn deck_format() {
    let cards = parse_deck(DECK);
    let sides: Vec<(String, String)> = cards.iter().map(|c| (c.front.clone(), c.back.clone())).collect();
    assert_eq!(
        sides,
        vec![
            ("dog".to_string(), "perro".to_string()),
            ("cat".to_string(), "gato".to_string()),
            ("bird".to_string(), "pajaro".to_string()),
            ("fish".to_string(), "pez".to_string()),
        ]
    );
    assert!(cards.iter().all(|c| c.turns_until_repeat == 0 && c.corrects == 0 && c.wrongs == 0));
}

#[test]
fn deck_splits_like_str_split() {
    for text in ["a##b", "a###b", "####", "", "x##y####z##w", "a#####b##c", "é##ü####ß##ç"] {
        let expected: Vec<(String, String)> = text
            .split("####")
            .map(|x| x.split("##").collect::<Vec<&str>>())
            .map(|x| if x.len() == 2 { (x[0], x[1]) } else { (x[0], "") })
            .filter(|x| !x.0.is_empty() && !x.1.is_empty())
            .map(|x| (x.0.to_string(), x.1.to_string()))
            .collect();
        let got: Vec<(String, String)> = parse_deck(text).iter().map(|c| (c.front.clone(), c.back.clone())).collect();
        assert_eq!(got, expected, "text {:?}", text);
    }
}

#[test]
fn due_cards_first_then_in_turn() {
    let mut drill = Drill::from_text(DECK);
    assert_eq!(drill.pick(), 0);
    let prompt = drill.prompt(0);
    let (options, sources) = match prompt {
        Prompt::Ask { front, options, sources } => {
            assert_eq!(front, "dog");
            (options, sources)
        },
        Prompt::TooFew => panic!("four cards are enough"),
    };
    assert_eq!(options.len(), 4);
    let mut sorted = sources.clone();
    sorted.sort();
    assert_eq!(sorted, vec![0, 1, 2, 3]);
    let right_place = options.iter().position(|o| o == "perro").unwrap();
    assert!(drill.answer(0, &options, right_place + 1));
    drill.end_turn();
    // The other cards are still due: card 1 comes next.
    assert_eq!(drill.pick(), 1);
}

#[test]
fn wrong_answers_come_back_soon() {
    let mut drill = Drill::from_text(DECK);
    let options = vec!["gato".to_string(), "pez".to_string(), "pajaro".to_string(), "perro".to_string()];
    assert!(!drill.answer(0, &options, 1));
    assert!(!drill.answer(0, &options, 9));
    assert!(drill.answer(0, &options, 4));
}

#[test]
fn too_few_cards() {
    let drill = Drill::from_text("a##b####c##d");
    assert!(matches!(drill.prompt(5), Prompt::TooFew));
}

#[test]
fn turns_count_down() {
    let mut drill = Drill::from_text(DECK);
    let options = vec!["x".to_string()];
    for i in 0..4 {
        let _ = drill.answer(i, &options, 1);
    }
    // Every card waits at least six turns now: the turn order is used.
    assert_eq!(drill.pick(), 0);
    assert_eq!(drill.pick(), 1);
    for _ in 0..12 {
        drill.end_turn();
    }
    assert_eq!(drill.pick(), 0);
}
