use enigma::catalog::{lookup_reflector, lookup_rotor, reflect};
use enigma::config::{chars_of, parse_plug_token, parse_rotor_token};
use enigma::{
    EncipherArgs, EnigmaError, EnigmaMachine, Letter, MachineState, Message, Plugboard,
    ReflectorId, Rotor, RotorId,
};

fn strings(v: &[&str]) -> Vec<String> {
    v.iter().map(|s| s.to_string()).collect()
}

fn state(rotors: &[&str], plugs: &[&str]) -> MachineState {
    MachineState::from_tokens("B", &strings(rotors), &strings(plugs)).unwrap()
}

fn letters(s: &str) -> Message {
    Message::from_text(s).unwrap()
}

#[test]
fn golden_vector_historical_order() {
    let mut m = EnigmaMachine::from_state(&state(&["III", "II", "I"], &[]));
    assert_eq!(m.consume(&letters("AAAAA")).to_string(), "BDZGO");
}

#[test]
fn golden_vector_rotors_one_two_three_rightmost_first() {
    let mut m = EnigmaMachine::from_state(&state(&["I", "II", "III"], &[]));
    assert_eq!(m.consume(&letters("AAAAA")).to_string(), "FTZMG");
}

#[test]
fn known_plaintext_hello_world() {
    let mut m = EnigmaMachine::from_state(&state(&["III", "II", "I"], &[]));
    assert_eq!(m.consume(&letters("HELLOWORLD")).to_string(), "ILBDAAMTAZ");
}

#[test]
fn plugs_and_starts_vector() {
    let s = state(&["IV:Q", "V:M", "I:B"], &["AB", "CD", "XZ"]);
    let mut m = EnigmaMachine::from_state(&s);
    let out = m.consume(&letters("THEQUICKBROWNFOX"));
    assert_eq!(out.to_string(), "LZCOOVAYNLPQAYUY");
    let offs: String = m.offsets().iter().map(|l| l.to_char()).collect();
    assert_eq!(offs, "GMB");
}

#[test]
fn determinism_of_fresh_machines() {
    let s = state(&["II:K", "IV", "V:Z"], &["QW", "ER"]);
    let msg = letters("ATTACKATDAWN");
    let mut a = EnigmaMachine::from_state(&s);
    let mut b = EnigmaMachine::from_state(&s);
    assert_eq!(a.consume(&msg).to_string(), b.consume(&msg).to_string());
}

#[test]
fn self_inverse_round_trip() {
    let s = state(&["VIII:C", "VI:Y", "VII"], &["AM", "FI", "NV", "PS", "TU", "WZ"]);
    let plain = letters("THEQUICKBROWNFOXJUMPSOVERTHELAZYDOG");
    let mut a = EnigmaMachine::from_state(&s);
    let cipher = a.consume(&plain);
    let mut b = EnigmaMachine::from_state(&s);
    let back = b.consume(&cipher);
    assert_eq!(back.to_string(), "THEQUICKBROWNFOXJUMPSOVERTHELAZYDOG");
    assert_ne!(cipher.to_string(), plain.to_string());
}

#[test]
fn rightmost_rotor_period_twenty_six() {
    let mut m = EnigmaMachine::from_state(&state(&["I", "II", "III"], &[]));
    let start = m.offsets()[0].index();
    for k in 0..26 {
        m.consume(&letters("A"));
        if k < 25 {
            assert_ne!(m.offsets()[0].index(), start);
        }
    }
    assert_eq!(m.offsets()[0].index(), start);
}

#[test]
fn config_rejects_unknown_rotor() {
    let r = MachineState::from_tokens("B", &strings(&["ZZ", "II", "III"]), &strings(&[]));
    assert_eq!(r.unwrap_err(), EnigmaError::UnknownRotorId);
}

#[test]
fn config_rejects_overlapping_plugs() {
    let r = MachineState::from_tokens("B", &strings(&["I", "II", "III"]), &strings(&["AB", "AC"]));
    assert_eq!(r.unwrap_err(), EnigmaError::ConfigError);
}

#[test]
fn config_rejects_self_plug() {
    let r = MachineState::from_tokens("B", &strings(&["I", "II", "III"]), &strings(&["AA"]));
    assert_eq!(r.unwrap_err(), EnigmaError::ConfigError);
}

#[test]
fn config_rejects_unknown_reflector() {
    let r = MachineState::from_tokens("Z", &strings(&["I", "II", "III"]), &strings(&[]));
    assert_eq!(r.unwrap_err(), EnigmaError::UnknownReflectorId);
}

#[test]
fn config_rejects_wrong_rotor_count() {
    let r = MachineState::from_tokens("B", &strings(&["I", "II"]), &strings(&[]));
    assert_eq!(r.unwrap_err(), EnigmaError::ConfigError);
    let r = MachineState::from_tokens("B", &strings(&["I", "II", "III", "IV"]), &strings(&[]));
    assert_eq!(r.unwrap_err(), EnigmaError::ConfigError);
}

#[test]
fn config_rejects_bad_tokens() {
    let r = MachineState::from_tokens("B", &strings(&["I:5", "II", "III"]), &strings(&[]));
    assert_eq!(r.unwrap_err(), EnigmaError::InvalidLetter);
    let r = MachineState::from_tokens("B", &strings(&["I:", "II", "III"]), &strings(&[]));
    assert_eq!(r.unwrap_err(), EnigmaError::ConfigError);
    let r = MachineState::from_tokens("B", &strings(&["I:AB", "II", "III"]), &strings(&[]));
    assert_eq!(r.unwrap_err(), EnigmaError::ConfigError);
    let r = MachineState::from_tokens("B", &strings(&["I", "II", "III"]), &strings(&["ABC"]));
    assert_eq!(r.unwrap_err(), EnigmaError::ConfigError);
    let r = MachineState::from_tokens("B", &strings(&["I", "II", "III"]), &strings(&["A1"]));
    assert_eq!(r.unwrap_err(), EnigmaError::InvalidLetter);
}

#[test]
fn config_first_fault_wins() {
    let r = MachineState::from_tokens("Q", &strings(&["ZZ"]), &strings(&["AA"]));
    assert_eq!(r.unwrap_err(), EnigmaError::UnknownReflectorId);
    let r = MachineState::from_tokens("B", &strings(&["I:9", "ZZ"]), &strings(&[]));
    assert_eq!(r.unwrap_err(), EnigmaError::InvalidLetter);
    let r = MachineState::from_tokens("B", &strings(&["I", "II"]), &strings(&["1"]));
    assert_eq!(r.unwrap_err(), EnigmaError::ConfigError);
}

#[test]
fn new_state_checks_counts_and_plugs() {
    let ids = vec![RotorId::I, RotorId::II, RotorId::III];
    let starts = vec![Letter::from_index(0); 3];
    let a = Letter::from_index(0);
    let b = Letter::from_index(1);
    let c = Letter::from_index(2);
    assert!(MachineState::new(vec![(a, b)], ids.clone(), starts.clone(), ReflectorId::B).is_ok());
    let r = MachineState::new(vec![(a, b), (c, a)], ids.clone(), starts.clone(), ReflectorId::B);
    assert_eq!(r.unwrap_err(), EnigmaError::ConfigError);
    let r = MachineState::new(vec![], vec![RotorId::I], starts.clone(), ReflectorId::B);
    assert_eq!(r.unwrap_err(), EnigmaError::ConfigError);
    let r = MachineState::new(vec![], ids, vec![a, b], ReflectorId::C);
    assert_eq!(r.unwrap_err(), EnigmaError::ConfigError);
}

#[test]
fn stepping_is_simple_propagation() {
    // Rightmost III at V, middle II at E: the first press carries through both
    // notches; the second press turns only the rightmost rotor. Under the
    // double-step anomaly the middle rotor would turn again here.
    let mut m = EnigmaMachine::from_state(&state(&["III:V", "II:E", "I:A"], &[]));
    let out1 = m.press(Letter::from_index(0));
    let offs: String = m.offsets().iter().map(|l| l.to_char()).collect();
    assert_eq!(offs, "WFB");
    assert_eq!(out1.to_char(), 'G');
    let out2 = m.press(Letter::from_index(0));
    let offs: String = m.offsets().iter().map(|l| l.to_char()).collect();
    assert_eq!(offs, "XFB");
    assert_eq!(out2.to_char(), 'I');
}

#[test]
fn non_letters_pass_through_without_stepping() {
    let mut m = EnigmaMachine::from_state(&state(&["III", "II", "I"], &[]));
    assert_eq!(m.consume_text("Hello, World"), "ILBDA, AMTAZ");
    let offs: String = m.offsets().iter().map(|l| l.to_char()).collect();
    assert_eq!(offs, "KAA");
    let mut n = EnigmaMachine::from_state(&state(&["III", "II", "I"], &[]));
    assert_eq!(n.consume_text(" 1?"), " 1?");
    let offs: String = n.offsets().iter().map(|l| l.to_char()).collect();
    assert_eq!(offs, "AAA");
}

#[test]
fn letter_conversion() {
    assert_eq!(Letter::from_char('A').unwrap().index(), 0);
    assert_eq!(Letter::from_char('z').unwrap().index(), 25);
    assert_eq!(Letter::from_char('q').unwrap().to_char(), 'Q');
    assert_eq!(Letter::from_char('1').unwrap_err(), EnigmaError::InvalidLetter);
    assert_eq!(Letter::from_char(' ').unwrap_err(), EnigmaError::InvalidLetter);
    assert_eq!(Letter::from_char('Ä').unwrap_err(), EnigmaError::InvalidLetter);
    assert_eq!(Letter::from_index(7).to_char(), 'H');
}

#[test]
fn message_text_round_trip() {
    let m = Message::from_text("abcXYZ").unwrap();
    assert_eq!(m.len(), 6);
    assert_eq!(m.to_string(), "ABCXYZ");
    assert_eq!(Message::from_text("AB C").unwrap_err(), EnigmaError::InvalidLetter);
    assert_eq!(Message::from_text("").unwrap().to_string(), "");
}

#[test]
fn reflector_has_no_fixed_point() {
    for id in [ReflectorId::A, ReflectorId::B, ReflectorId::C] {
        for i in 0..26u8 {
            let l = Letter::from_index(i);
            let r = reflect(id, l);
            assert_ne!(r.index(), i);
            assert_eq!(reflect(id, r).index(), i);
        }
    }
    assert_eq!(reflect(ReflectorId::B, Letter::from_index(0)).to_char(), 'Y');
}

#[test]
fn plugboard_swap_is_involution() {
    let p = Plugboard::new(&vec![
        (Letter::from_index(0), Letter::from_index(1)),
        (Letter::from_index(2), Letter::from_index(25)),
    ])
    .unwrap();
    assert_eq!(p.swap(Letter::from_index(0)).index(), 1);
    assert_eq!(p.swap(Letter::from_index(25)).index(), 2);
    assert_eq!(p.swap(Letter::from_index(4)).index(), 4);
    for i in 0..26u8 {
        let l = Letter::from_index(i);
        assert_eq!(p.swap(p.swap(l)).index(), i);
    }
}

#[test]
fn plugboard_rejects_reused_letter() {
    let a = Letter::from_index(0);
    let b = Letter::from_index(1);
    assert_eq!(Plugboard::new(&vec![(a, b), (b, a)]).unwrap_err(), EnigmaError::ConfigError);
    assert_eq!(Plugboard::new(&vec![(a, a)]).unwrap_err(), EnigmaError::ConfigError);
    assert!(Plugboard::new(&vec![]).is_ok());
}

#[test]
fn rotor_forward_backward_and_step() {
    let mut r = Rotor::new(RotorId::I, Letter::from_index(0));
    assert_eq!(r.forward(Letter::from_index(0)).to_char(), 'E');
    assert_eq!(r.backward(Letter::from_index(4)).to_char(), 'A');
    r = Rotor::new(RotorId::I, Letter::from_index(1));
    // offset 1: contact A+1 = B maps to K, minus 1 gives J
    assert_eq!(r.forward(Letter::from_index(0)).to_char(), 'J');
    for i in 0..26u8 {
        let l = Letter::from_index(i);
        assert_eq!(r.backward(r.forward(l)).index(), i);
    }
    let mut q = Rotor::new(RotorId::I, Letter::from_index(16));
    assert!(q.step());
    assert_eq!(q.offset.to_char(), 'R');
    assert!(!q.step());
    let mut z = Rotor::new(RotorId::V, Letter::from_index(25));
    assert!(z.step());
    assert_eq!(z.offset.index(), 0);
}

#[test]
fn catalog_lookup() {
    assert_eq!(lookup_rotor(&"VIII".chars().collect()).unwrap(), RotorId::VIII);
    assert_eq!(lookup_rotor(&"IV".chars().collect()).unwrap(), RotorId::IV);
    assert_eq!(lookup_rotor(&"iv".chars().collect()).unwrap_err(), EnigmaError::UnknownRotorId);
    assert_eq!(lookup_rotor(&"IX".chars().collect()).unwrap_err(), EnigmaError::UnknownRotorId);
    assert_eq!(lookup_reflector(&"C".chars().collect()).unwrap(), ReflectorId::C);
    assert_eq!(lookup_reflector(&"".chars().collect()).unwrap_err(), EnigmaError::UnknownReflectorId);
}

#[test]
fn token_parsing() {
    let (id, l) = parse_rotor_token(&chars_of("VI:q")).unwrap();
    assert_eq!(id, RotorId::VI);
    assert_eq!(l.to_char(), 'Q');
    let (id, l) = parse_rotor_token(&chars_of("II")).unwrap();
    assert_eq!(id, RotorId::II);
    assert_eq!(l.index(), 0);
    let (a, b) = parse_plug_token(&chars_of("xy")).unwrap();
    assert_eq!((a.to_char(), b.to_char()), ('X', 'Y'));
    assert_eq!(chars_of("héllo"), vec!['h', 'é', 'l', 'l', 'o']);
}

#[test]
fn encipher_args_build_machine() {
    let args = EncipherArgs {
        reflector_id: "B".to_string(),
        rotor_ids: strings(&["III", "II", "I"]),
        plug_map: vec![],
    };
    let mut m = args.machine().unwrap();
    assert_eq!(m.consume_text("AAAAA"), "BDZGO");
    let bad = EncipherArgs {
        reflector_id: "B".to_string(),
        rotor_ids: strings(&["ZZ"]),
        plug_map: vec![],
    };
    assert_eq!(bad.machine().unwrap_err(), EnigmaError::UnknownRotorId);
}
