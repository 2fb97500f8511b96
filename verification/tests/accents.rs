use voxalfa_validator::ast::solfa::PulseAccent;
use voxalfa_validator::data_types::TimeSignature;

fn accent_cases() -> Vec<(TimeSignature, Vec<PulseAccent>)> {
    vec![
        // | :
        (TimeSignature { top: 2, bottom: 4 }, vec![PulseAccent::Strong, PulseAccent::Weak]),
        // | : :
        (
            TimeSignature { top: 3, bottom: 4 },
            vec![PulseAccent::Strong, PulseAccent::Weak, PulseAccent::Weak],
        ),
        // | : ! :
        (
            TimeSignature { top: 4, bottom: 4 },
            vec![PulseAccent::Strong, PulseAccent::Weak, PulseAccent::Medium, PulseAccent::Weak],
        ),
        // | : : ! : :
        (
            TimeSignature { top: 6, bottom: 4 },
            vec![
                PulseAccent::Strong,
                PulseAccent::Weak,
                PulseAccent::Weak,
                PulseAccent::Medium,
                PulseAccent::Weak,
                PulseAccent::Weak,
            ],
        ),
    ]
}

#[test]
fn types_test_time_signature() {
    for (signature, expected) in accent_cases() {
        let mut pulses = Vec::new();
        for pos in 0..signature.top {
            pulses.push(signature.get_accent(pos));
        }
        assert_eq!(expected, pulses);
    }
}

#[test]
fn time_signature_test_time_signature() {
    for (signature, expected) in accent_cases() {
        let mut pulses = Vec::new();
        for pos in 0..signature.top {
            pulses.push(signature.get_accent(pos));
        }
        assert_eq!(expected, pulses);
    }
}

#[test]
fn accents_repeat_with_the_group_period() {
    let nine = TimeSignature { top: 9, bottom: 8 };
    assert_eq!(nine.get_accent(3), PulseAccent::Medium);
    assert_eq!(nine.get_accent(4), PulseAccent::Weak);
    assert_eq!(nine.get_accent(6), PulseAccent::Medium);
    assert_eq!(nine.get_accent(0), PulseAccent::Strong);
}
