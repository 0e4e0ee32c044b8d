use picomate::wifi::{init, ip_line, Action, Event, Stage, JOIN_RETRY_SECS};

/// Goes through the start of the chip and the stack.
fn joining() -> Stage {
    let (stage, action) = Stage::start();
    assert!(matches!(action, Action::StartChip));
    let (stage, action) = init(stage, Event::Done);
    assert!(matches!(action, Action::LoadRegulatory));
    let (stage, action) = init(stage, Event::Done);
    assert!(matches!(action, Action::DisablePowerSave));
    let (stage, action) = init(stage, Event::Done);
    assert!(matches!(action, Action::StartStack { seed: 0xdead_beef_cafe_babe }));
    let (stage, action) = init(stage, Event::Done);
    assert!(matches!(action, Action::Join));
    stage
}

#[test]
fn link_comes_up() {
    let (stage, action) = init(joining(), Event::Joined(Ok(())));
    assert!(matches!(action, Action::WaitConfig));
    let (stage, action) = init(stage, Event::Configured([192, 168, 1, 180]));
    assert_eq!(stage, Stage::Up);
    match action {
        Action::Ready(wifi) => assert_eq!(wifi.ip.as_str(), "192.168.1.180"),
        _ => panic!("the link is not up"),
    }
}

#[test]
fn failed_joins_are_repeated() {
    assert_eq!(JOIN_RETRY_SECS, 2);
    let mut stage = joining();
    for _ in 0..5 {
        let (backoff, action) = init(stage, Event::Joined(Err(())));
        assert!(matches!(action, Action::Delay { secs: 2 }));
        let (again, action) = init(backoff, Event::Done);
        assert!(matches!(action, Action::Join));
        stage = again;
    }
    let (stage, _) = init(stage, Event::Joined(Ok(())));
    assert_eq!(stage, Stage::Configuring);
}

#[test]
fn addresses_in_dotted_decimal() {
    assert_eq!(ip_line([0, 0, 0, 0]).as_str(), "0.0.0.0");
    assert_eq!(ip_line([10, 1, 20, 109]).as_str(), "10.1.20.109");
    assert_eq!(ip_line([255, 255, 255, 255]).as_str(), "255.255.255.255");
}

#[test]
fn text_tells_the_address() {
    let close = [[1, 11, 1, 1], [11, 1, 1, 1], [1, 1, 11, 1], [1, 1, 1, 11], [111, 1, 1, 1]];
    for o in close {
        for p in close {
            assert_eq!(ip_line(o) == ip_line(p), o == p);
        }
    }
}
