use dfagen::{DFABuilder, DFAError, Evaluation, DFA};

fn chars(s: &str) -> Vec<char> {
    s.chars().collect()
}

fn contains_one() -> DFA<&'static str, char> {
    DFABuilder::new()
        .add_state(&"no_one")
        .add_state(&"has_one")
        .mark_start_state(&"no_one")
        .mark_goal_state(&"has_one")
        .add_transition(&"no_one", &'0', &"no_one")
        .add_transition(&"no_one", &'1', &"has_one")
        .build()
        .unwrap()
}

fn cycle_detector() -> DFA<&'static str, char> {
    DFABuilder::default()
        .add_state(&"q0")
        .add_state(&"q1")
        .add_state(&"q2")
        .add_state(&"q3")
        .mark_goal_state(&"q3")
        .mark_start_state(&"q0")
        .add_transition(&"q0", &'a', &"q0")
        .add_transition(&"q1", &'a', &"q2")
        .add_transition(&"q2", &'a', &"q0")
        .add_transition(&"q0", &'b', &"q1")
        .add_transition(&"q1", &'b', &"q1")
        .add_transition(&"q2", &'b', &"q3")
        .build()
        .unwrap()
}

/// Accepts sequences of `x` of even length; a `y` leads to a trap.
fn even_xs() -> DFA<u8, char> {
    DFABuilder::new()
        .add_state(&0)
        .add_state(&1)
        .add_state(&2)
        .mark_start_state(&0)
        .mark_accept_state(&0)
        .mark_dead_state(&2)
        .add_transition(&0, &'x', &1)
        .add_transition(&1, &'x', &0)
        .add_transition(&0, &'y', &2)
        .add_transition(&1, &'y', &2)
        .build()
        .unwrap()
}

#[test]
fn contains_one_scenario() {
    let mut d = contains_one();
    assert_eq!(d.recognize(&chars("000")), Evaluation::Reject);
    assert_eq!(d.recognize(&chars("100")), Evaluation::Accept);
    assert_eq!(d.recognize(&chars("010")), Evaluation::Accept);
    assert_eq!(d.recognize(&chars("001")), Evaluation::Accept);
}

#[test]
fn cycle_detector_scenario() {
    let mut d = cycle_detector();
    assert_eq!(d.recognize(&chars("")), Evaluation::Reject);
    assert_eq!(d.recognize(&chars("abba")), Evaluation::Reject);
    assert_eq!(d.recognize(&chars("aaaaabbbbbab")), Evaluation::Accept);
    assert_eq!(d.recognize(&chars("ababba")), Evaluation::Accept);
    assert_eq!(d.state(), "q3");
}

#[test]
fn accept_and_dead_conflict_fails() {
    let r = DFABuilder::<&str, char>::new()
        .add_state(&"s")
        .mark_start_state(&"s")
        .mark_accept_state(&"s")
        .mark_dead_state(&"s")
        .build();
    assert_eq!(r.err(), Some(DFAError::RoleConflict));
    let r = DFABuilder::<&str, char>::new()
        .add_state(&"s")
        .mark_start_state(&"s")
        .mark_dead_state(&"s")
        .mark_accept_state(&"s")
        .build();
    assert_eq!(r.err(), Some(DFAError::RoleConflict));
    let r = DFABuilder::<&str, char>::new()
        .add_state(&"s")
        .mark_start_state(&"s")
        .mark_dead_state(&"s")
        .mark_goal_state(&"s")
        .build();
    assert_eq!(r.err(), Some(DFAError::RoleConflict));
}

#[test]
fn zero_accept_states_fails() {
    let r = DFABuilder::<&str, char>::new()
        .add_state(&"s")
        .mark_start_state(&"s")
        .add_transition(&"s", &'a', &"s")
        .build();
    assert_eq!(r.err(), Some(DFAError::MissingAccept));
}

#[test]
fn zero_states_fails() {
    let r = DFABuilder::<&str, char>::new().build();
    assert_eq!(r.err(), Some(DFAError::NoStates));
}

#[test]
fn missing_start_fails() {
    let r = DFABuilder::<&str, char>::new()
        .add_state(&"s")
        .mark_accept_state(&"s")
        .build();
    assert_eq!(r.err(), Some(DFAError::MissingStart));
}

#[test]
fn start_redefinition_fails() {
    let r = DFABuilder::<&str, char>::new()
        .add_state(&"s")
        .add_state(&"t")
        .mark_start_state(&"s")
        .mark_start_state(&"t")
        .mark_accept_state(&"s")
        .build();
    assert_eq!(r.err(), Some(DFAError::StartRedefined));
}

#[test]
fn unknown_state_fails() {
    let base = || DFABuilder::<&str, char>::new().add_state(&"s");
    assert_eq!(base().mark_start_state(&"x").build().err(), Some(DFAError::UnknownState));
    assert_eq!(base().mark_accept_state(&"x").build().err(), Some(DFAError::UnknownState));
    assert_eq!(base().mark_goal_state(&"x").build().err(), Some(DFAError::UnknownState));
    assert_eq!(base().mark_dead_state(&"x").build().err(), Some(DFAError::UnknownState));
    assert_eq!(
        base().add_transition(&"x", &'a', &"s").build().err(),
        Some(DFAError::UnknownState)
    );
    assert_eq!(
        base().add_transition(&"s", &'a', &"x").build().err(),
        Some(DFAError::UnknownState)
    );
}

#[test]
fn state_after_transition_fails() {
    let r = DFABuilder::<&str, char>::new()
        .add_state(&"s")
        .mark_start_state(&"s")
        .mark_accept_state(&"s")
        .add_transition(&"s", &'a', &"s")
        .add_state(&"t")
        .build();
    assert_eq!(r.err(), Some(DFAError::StateAfterTransition));
}

#[test]
fn transition_from_absorbing_fails() {
    let base = || {
        DFABuilder::<&str, char>::new()
            .add_state(&"s")
            .add_state(&"g")
            .add_state(&"d")
            .mark_start_state(&"s")
            .mark_goal_state(&"g")
            .mark_dead_state(&"d")
    };
    assert_eq!(
        base().add_transition(&"g", &'a', &"s").build().err(),
        Some(DFAError::TransitionFromAbsorbing)
    );
    assert_eq!(
        base().add_transition(&"d", &'a', &"s").build().err(),
        Some(DFAError::TransitionFromAbsorbing)
    );
    let late = DFABuilder::<&str, char>::new()
        .add_state(&"s")
        .add_state(&"g")
        .mark_start_state(&"s")
        .add_transition(&"s", &'a', &"g")
        .add_transition(&"g", &'a', &"g")
        .mark_goal_state(&"g")
        .build();
    assert_eq!(late.err(), Some(DFAError::TransitionFromAbsorbing));
}

#[test]
fn incomplete_table_fails() {
    let r = DFABuilder::<&str, char>::new()
        .add_state(&"s")
        .add_state(&"t")
        .add_state(&"g")
        .mark_start_state(&"s")
        .mark_goal_state(&"g")
        .add_transition(&"s", &'a', &"t")
        .add_transition(&"t", &'a', &"g")
        .add_transition(&"s", &'b', &"s")
        .build();
    assert_eq!(r.err(), Some(DFAError::IncompleteTransitionTable));
}

#[test]
fn first_error_is_kept() {
    let r = DFABuilder::<&str, char>::new()
        .mark_start_state(&"s")
        .add_state(&"s")
        .mark_dead_state(&"s")
        .mark_accept_state(&"s")
        .build();
    assert_eq!(r.err(), Some(DFAError::UnknownState));
}

#[test]
fn empty_input_classifies_start() {
    let mut d = even_xs();
    d.restart();
    assert_eq!(d.eval(), Evaluation::Accept);
    assert_eq!(d.recognize(&[]), Evaluation::Accept);
    let mut c = contains_one();
    c.restart();
    assert_eq!(c.eval(), Evaluation::Reject);
    assert_eq!(c.recognize(&[]), Evaluation::Reject);
}

#[test]
fn dead_state_absorbs() {
    let mut d = even_xs();
    assert_eq!(d.recognize(&chars("xy")), Evaluation::Reject);
    assert_eq!(d.state(), 2);
    d.next(&'x');
    assert_eq!(d.state(), 2);
    assert_eq!(d.eval(), Evaluation::Reject);
    d.next(&'z');
    assert_eq!(d.state(), 2);
    assert_eq!(d.try_next(&'q'), Ok(()));
    assert_eq!(d.state(), 2);
    assert_eq!(d.eval(), Evaluation::Reject);
    assert_eq!(d.recognize(&chars("yxx")), Evaluation::Reject);
}

#[test]
fn goal_state_absorbs() {
    let mut d = contains_one();
    d.restart();
    d.next(&'1');
    assert_eq!(d.state(), "has_one");
    assert_eq!(d.eval(), Evaluation::Accept);
    d.next(&'0');
    d.next(&'7');
    assert_eq!(d.state(), "has_one");
    assert_eq!(d.eval(), Evaluation::Accept);
}

#[test]
fn recognize_matches_stepping() {
    let mut d = even_xs();
    for input in ["", "x", "xx", "xxx", "xxxx", "xyx", "yx"] {
        let symbols = chars(input);
        d.restart();
        for t in &symbols {
            d.next(t);
        }
        let stepped = d.eval();
        let stepped_state = d.state();
        assert_eq!(d.recognize(&symbols), stepped);
        assert_eq!(d.state(), stepped_state);
    }
    assert_eq!(d.recognize(&chars("xxxx")), Evaluation::Accept);
    assert_eq!(d.recognize(&chars("xxx")), Evaluation::Reject);
}

#[test]
fn next_moves_cursor() {
    let mut d = cycle_detector();
    d.restart();
    assert_eq!(d.state(), "q0");
    d.next(&'b');
    assert_eq!(d.state(), "q1");
    d.next(&'a');
    assert_eq!(d.state(), "q2");
    d.next(&'a');
    assert_eq!(d.state(), "q0");
    d.restart();
    assert_eq!(d.state(), "q0");
}

#[test]
fn unknown_symbol_is_reported() {
    let mut d = cycle_detector();
    d.restart();
    d.next(&'b');
    assert_eq!(d.try_next(&'c'), Err(DFAError::UnknownSymbol));
    assert_eq!(d.state(), "q1");
    assert_eq!(d.try_next(&'a'), Ok(()));
    assert_eq!(d.state(), "q2");
}

#[test]
fn repeated_state_is_registered_once() {
    let mut d = DFABuilder::<&str, char>::new()
        .add_state(&"s")
        .add_state(&"s")
        .mark_start_state(&"s")
        .mark_accept_state(&"s")
        .add_transition(&"s", &'a', &"s")
        .build()
        .unwrap();
    assert_eq!(d.recognize(&chars("aaa")), Evaluation::Accept);
}

#[test]
fn later_edge_replaces_earlier() {
    let mut d = DFABuilder::<&str, char>::new()
        .add_state(&"s")
        .add_state(&"t")
        .mark_start_state(&"s")
        .mark_accept_state(&"t")
        .add_transition(&"s", &'a', &"s")
        .add_transition(&"t", &'a', &"t")
        .add_transition(&"s", &'a', &"t")
        .build()
        .unwrap();
    assert_eq!(d.recognize(&chars("a")), Evaluation::Accept);
    assert_eq!(d.state(), "t");
}

#[test]
fn automaton_without_edges_classifies_start() {
    let mut d = DFABuilder::<u32, u32>::new()
        .add_state(&5)
        .mark_start_state(&5)
        .mark_accept_state(&5)
        .build()
        .unwrap();
    assert_eq!(d.recognize(&[]), Evaluation::Accept);
    assert_eq!(d.state(), 5);
    assert_eq!(d.try_next(&1), Err(DFAError::UnknownSymbol));
}
