use competitive::automaton::{
    AlwaysAcceptingAutomaton, Automaton, ContainAutomaton, ContainCounterAutomaton,
    GreaterThanAutomaton, IntersectionAutomaton, LessThanAutomaton, ProductAutomaton,
    UnionAutomaton,
};

/// Runs `dfa` over `word`, returning the final state when every symbol is
/// admitted.
fn run<A: Automaton>(dfa: &A, word: &[A::Alphabet]) -> Option<A::State> {
    let mut state = dfa.initial();
    for c in word {
        match dfa.next(&state, c) {
            Some((next, _)) => state = next,
            None => return None,
        }
    }
    Some(state)
}

fn accepts<A: Automaton>(dfa: &A, word: &[A::Alphabet]) -> bool {
    match run(dfa, word) {
        Some(state) => dfa.accept(&state),
        None => false,
    }
}

#[test]
fn test_less_than_automaton() {
    let bound = [1u32, 5, 3];
    let strict = LessThanAutomaton::new(&bound, false);
    assert!(accepts(&strict, &[1, 4, 9]));
    assert!(accepts(&strict, &[0, 9, 9]));
    assert!(!accepts(&strict, &[1, 5, 3]));
    assert!(!accepts(&strict, &[1, 6, 0]));
    let with_eq = LessThanAutomaton::new(&bound, true);
    assert!(accepts(&with_eq, &[1, 5, 3]));
    assert!(!accepts(&with_eq, &[2, 0, 0]));
}

#[test]
fn test_greater_than_automaton() {
    let bound = [4u32, 2];
    let strict = GreaterThanAutomaton::new(&bound, false);
    assert!(accepts(&strict, &[4, 3]));
    assert!(accepts(&strict, &[9, 0]));
    assert!(!accepts(&strict, &[4, 2]));
    assert!(!accepts(&strict, &[3, 9]));
    let with_eq = GreaterThanAutomaton::new(&bound, true);
    assert!(accepts(&with_eq, &[4, 2]));
}

#[test]
fn test_contain_automaton() {
    let needle = 7u32;
    let dfa = ContainAutomaton(&needle);
    assert!(accepts(&dfa, &[1, 7, 2]));
    assert!(!accepts(&dfa, &[1, 2, 3]));
    // the effect is the XOR of the seen-before flag and the current hit
    let mut state = dfa.initial();
    let mut effects = Vec::new();
    for c in [5u32, 7, 7, 1] {
        let (next, eff) = dfa.next(&state, &c).unwrap();
        state = next;
        effects.push(eff);
    }
    assert_eq!(effects, vec![false, true, false, true]);
}

#[test]
fn test_contain_counter_automaton() {
    let needle = 2u32;
    let dfa = ContainCounterAutomaton(&needle);
    let state = run(&dfa, &[2, 1, 2, 2, 0]).unwrap();
    assert_eq!(state, 3);
    assert!(dfa.accept(&state));
    assert!(!accepts(&dfa, &[1, 3]));
}

#[test]
fn test_always_accepting_automaton() {
    let dfa = AlwaysAcceptingAutomaton::<u32>::new();
    assert!(accepts(&dfa, &[]));
    assert!(accepts(&dfa, &[9, 9, 9]));
}

#[test]
fn test_intersection_union_automata() {
    // digits of a two-digit word between 21 and 45 inclusive
    let lo = [2u32, 1];
    let hi = [4u32, 5];
    let ge = GreaterThanAutomaton::new(&lo, true);
    let le = LessThanAutomaton::new(&hi, true);
    let between = IntersectionAutomaton(ge, le);
    assert!(accepts(&between, &[2, 1]));
    assert!(accepts(&between, &[3, 0]));
    assert!(accepts(&between, &[4, 5]));
    assert!(!accepts(&between, &[2, 0]));
    assert!(!accepts(&between, &[4, 6]));

    let one = 1u32;
    let two = 2u32;
    let either = UnionAutomaton(ContainAutomaton(&one), ContainAutomaton(&two));
    assert!(accepts(&either, &[1, 0]));
    assert!(accepts(&either, &[0, 2]));
    assert!(accepts(&either, &[1, 2]));
    assert!(!accepts(&either, &[0, 0]));
}

#[test]
fn test_product_automaton() {
    let needle_a = 1u32;
    let needle_b = 2u64;
    let dfa = ProductAutomaton(ContainAutomaton(&needle_a), ContainAutomaton(&needle_b));
    assert!(accepts(&dfa, &[(1u32, 2u64)]));
    assert!(accepts(&dfa, &[(1, 0), (0, 2)]));
    assert!(!accepts(&dfa, &[(1, 0), (3, 0)]));
}
