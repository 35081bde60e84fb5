use stream_after::{AfterState, Outcome};

type Answer = Outcome<u32, &'static str>;

/// One poll of the adapter: pulls answers from the scripted source until the
/// adapter has one for its caller.
fn poll_once(state: &mut AfterState<u32>, source: &mut std::vec::IntoIter<Answer>) -> Answer {
    loop {
        let answer = source.next().expect("the scripted source ran out");
        if let Some(out) = state.on_poll(answer) {
            return out;
        }
    }
}

/// Polls until the end of the sequence or an error, as a collector would.
fn collect(amt: usize, script: Vec<Answer>) -> Result<Vec<u32>, &'static str> {
    let mut state = AfterState::new(amt);
    let mut source = script.into_iter();
    let mut got = Vec::new();
    loop {
        match poll_once(&mut state, &mut source) {
            Outcome::Item(x) => got.push(x),
            Outcome::End => return Ok(got),
            Outcome::NotReady => {}
            Outcome::Error(e) => return Err(e),
        }
    }
}

fn items_then_end(xs: &[u32]) -> Vec<Answer> {
    let mut v: Vec<Answer> = xs.iter().map(|&x| Outcome::Item(x)).collect();
    v.push(Outcome::End);
    v
}

#[test]
fn playpen() {
    let result = collect(4, items_then_end(&[0, 1, 2, 3, 4, 5]));
    assert_eq!(result, Ok(vec![0, 1]));
}

#[test]
fn drops_the_last_amt_items() {
    let input = [10, 11, 12, 13, 14, 15, 16];
    for amt in 0..10usize {
        let keep = input.len() - amt.min(input.len());
        assert_eq!(collect(amt, items_then_end(&input)), Ok(input[..keep].to_vec()));
    }
}

#[test]
fn zero_capacity_passes_through() {
    assert_eq!(collect(0, items_then_end(&[7, 8, 9])), Ok(vec![7, 8, 9]));
    assert_eq!(collect(0, items_then_end(&[])), Ok(vec![]));
}

#[test]
fn short_input_yields_nothing() {
    assert_eq!(collect(5, items_then_end(&[0, 1, 2])), Ok(vec![]));
    assert_eq!(collect(3, items_then_end(&[0, 1, 2])), Ok(vec![]));
    assert_eq!(collect(1, items_then_end(&[])), Ok(vec![]));
}

#[test]
fn largest_capacity_holds_everything() {
    assert_eq!(collect(usize::MAX, items_then_end(&[1, 2, 3])), Ok(vec![]));
}

#[test]
fn new_state_is_empty() {
    let state: AfterState<u32> = AfterState::new(3);
    assert_eq!(state.amt(), 3);
    assert_eq!(state.buffered(), 0);
}

#[test]
fn item_is_held_until_amt_newer_arrive() {
    let mut state = AfterState::new(2);
    let mut source = vec![
        Outcome::Item(0),
        Outcome::NotReady,
        Outcome::Item(1),
        Outcome::NotReady,
        Outcome::Item(2),
    ]
    .into_iter();
    assert_eq!(poll_once(&mut state, &mut source), Outcome::NotReady);
    assert_eq!(state.buffered(), 1);
    assert_eq!(poll_once(&mut state, &mut source), Outcome::NotReady);
    assert_eq!(state.buffered(), 2);
    assert_eq!(poll_once(&mut state, &mut source), Outcome::Item(0));
    assert_eq!(state.buffered(), 2);
}

#[test]
fn single_answers_follow_the_rules() {
    let mut state: AfterState<u32> = AfterState::new(1);
    assert_eq!(state.on_poll::<&str>(Outcome::Item(4)), None);
    assert_eq!(state.on_poll::<&str>(Outcome::Item(5)), Some(Outcome::Item(4)));
    assert_eq!(state.buffered(), 1);
    assert_eq!(state.on_poll::<&str>(Outcome::Item(6)), Some(Outcome::Item(5)));
    assert_eq!(state.on_poll::<&str>(Outcome::End), Some(Outcome::End));
    assert_eq!(state.buffered(), 0);
}

#[test]
fn error_is_passed_on_and_buffer_dropped() {
    let mut state = AfterState::new(2);
    let mut source = vec![
        Outcome::Item(0),
        Outcome::Item(1),
        Outcome::Error("boom"),
        Outcome::Item(5),
        Outcome::Item(6),
        Outcome::Item(7),
        Outcome::End,
    ]
    .into_iter();
    assert_eq!(poll_once(&mut state, &mut source), Outcome::Error("boom"));
    assert_eq!(state.buffered(), 0);
    assert_eq!(poll_once(&mut state, &mut source), Outcome::Item(5));
    assert_eq!(poll_once(&mut state, &mut source), Outcome::End);
}

#[test]
fn error_stops_a_collector() {
    let script = vec![Outcome::Item(0), Outcome::Item(1), Outcome::Item(2), Outcome::Error("bad")];
    assert_eq!(collect(1, script), Err("bad"));
}

#[test]
fn waiting_changes_nothing() {
    let mut state = AfterState::new(3);
    assert_eq!(state.on_poll::<&str>(Outcome::Item(1)), None);
    assert_eq!(state.on_poll::<&str>(Outcome::Item(2)), None);
    for _ in 0..5 {
        assert_eq!(state.on_poll::<&str>(Outcome::NotReady), Some(Outcome::NotReady));
        assert_eq!(state.buffered(), 2);
        assert_eq!(state.amt(), 3);
    }
    assert_eq!(state.on_poll::<&str>(Outcome::Item(3)), None);
    assert_eq!(state.on_poll::<&str>(Outcome::Item(4)), Some(Outcome::Item(1)));
}

#[test]
fn end_to_end_with_a_wait() {
    let mut state = AfterState::new(1);
    let mut source = vec![
        Outcome::Item(0),
        Outcome::Item(1),
        Outcome::NotReady,
        Outcome::Item(2),
        Outcome::End,
    ]
    .into_iter();
    assert_eq!(poll_once(&mut state, &mut source), Outcome::Item(0));
    assert_eq!(state.buffered(), 1);
    assert_eq!(poll_once(&mut state, &mut source), Outcome::NotReady);
    assert_eq!(state.buffered(), 1);
    assert_eq!(poll_once(&mut state, &mut source), Outcome::Item(1));
    assert_eq!(poll_once(&mut state, &mut source), Outcome::End);
    assert_eq!(state.buffered(), 0);
}
