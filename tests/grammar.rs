use proc_macro2::{Delimiter, Spacing, TokenStream, TokenTree};
use sm::event::{Event, Events};
use sm::initial_state::{InitialState, InitialStates};
use sm::machine::{Machine, Machines};
use sm::state::{State, States};
use sm::token::Token;
use sm::transition::{Transition, Transitions};

fn flatten(stream: TokenStream, out: &mut Vec<Token>) {
    let trees: Vec<TokenTree> = stream.into_iter().collect();
    let mut i = 0;
    while i < trees.len() {
        match &trees[i] {
            TokenTree::Group(g) if g.delimiter() == Delimiter::Brace => {
                out.push(Token::Open);
                flatten(g.stream(), out);
                out.push(Token::Close);
            }
            TokenTree::Ident(id) => out.push(Token::Ident(id.to_string())),
            TokenTree::Punct(p) if p.as_char() == ',' => out.push(Token::Comma),
            TokenTree::Punct(p) if p.as_char() == '=' && p.spacing() == Spacing::Joint => {
                match trees.get(i + 1) {
                    Some(TokenTree::Punct(q)) if q.as_char() == '>' => {
                        out.push(Token::FatArrow);
                        i += 1;
                    }
                    _ => out.push(Token::Other(p.to_string())),
                }
            }
            other => out.push(Token::Other(other.to_string())),
        }
        i += 1;
    }
}

fn toks(text: &str) -> Vec<Token> {
    let mut out = Vec::new();
    flatten(text.parse::<TokenStream>().unwrap(), &mut out);
    out
}

fn same_code(left: &str, right: &str) -> bool {
    let l = left.parse::<TokenStream>().unwrap().to_string();
    let r = right.parse::<TokenStream>().unwrap().to_string();
    l == r
}

fn state(n: &str) -> State {
    State { name: n.to_string() }
}

fn event(n: &str) -> Event {
    Event { name: n.to_string() }
}

fn initial(n: &str) -> InitialState {
    InitialState { name: n.to_string() }
}

fn edge(e: &str, from: &str, to: &str) -> Transition {
    Transition { event: event(e), from: state(from), to: state(to) }
}

const PRELUDE: &str = "
    use ::sm::{AsEnum, Event, InitialState, Initializer, Machine as M, NoneEvent, State, Transition};

    #[derive(Debug, Eq, PartialEq)]
    pub struct Machine<S: State, E: Event>(S, Option<E>);

    impl<S: State, E: Event> M for Machine<S, E> {
        type State = S;
        type Event = E;

        fn state(&self) -> Self::State {
            self.0.clone()
        }

        fn trigger(&self) -> Option<Self::Event> {
            self.1.clone()
        }
    }

    impl<S: InitialState> Initializer<S> for Machine<S, NoneEvent> {
        type Machine = Machine<S, NoneEvent>;

        fn new(state: S) -> Self::Machine {
            Machine(state, Option::None)
        }
    }
";

#[test]
fn test_state_parse() {
    let t = toks("Unlocked");
    let left = State::parse(&t, 0).unwrap().0;
    let right = state("Unlocked");

    assert_eq!(left, right);
}

#[test]
fn test_event_parse() {
    let t = toks("Push");
    let left = Event::parse(&t, 0).unwrap().0;
    let right = event("Push");

    assert_eq!(left, right);
}

#[test]
fn test_initial_state_parse() {
    let t = toks("Unlocked");
    let left = InitialState::parse(&t, 0).unwrap().0;
    let right = initial("Unlocked");

    assert_eq!(left, right);
}

#[test]
fn test_initial_states_parse() {
    let t = toks("InitialStates { Locked, Unlocked }");
    let left = InitialStates::parse(&t, 0).unwrap().0;
    let right = InitialStates(vec![initial("Locked"), initial("Unlocked")]);

    assert_eq!(left, right);
}

#[test]
fn test_transitions_parse() {
    // The event blocks of a machine run up to the machine's closing brace.
    let mut t = toks(
        "
        Push { Locked, Unlocked => Locked }
        Coin { Locked, Unlocked => Unlocked }
        ",
    );
    t.push(Token::Close);
    let (left, next) = Transitions::parse(&t, 0).unwrap();

    let right = Transitions(vec![
        edge("Push", "Locked", "Locked"),
        edge("Push", "Unlocked", "Locked"),
        edge("Coin", "Locked", "Unlocked"),
        edge("Coin", "Unlocked", "Unlocked"),
    ]);

    assert_eq!(left, right);
    assert_eq!(next, t.len());
}

#[test]
fn test_machine_parse() {
    let t = toks(
        "
        TurnStile {
            InitialStates { Locked, Unlocked }

            Coin { Locked => Unlocked }
            Push { Unlocked => Locked }
        }",
    );
    let left = Machine::parse(&t, 0).unwrap().0;

    let right = Machine {
        name: "TurnStile".to_string(),
        initial_states: InitialStates(vec![initial("Locked"), initial("Unlocked")]),
        transitions: Transitions(vec![
            edge("Coin", "Locked", "Unlocked"),
            edge("Push", "Unlocked", "Locked"),
        ]),
    };

    assert_eq!(left, right);
}

#[test]
fn test_machines_parse() {
    let t = toks(
        "
        TurnStile {
            InitialStates { Locked, Unlocked }

            Coin { Locked => Unlocked }
            Push { Unlocked => Locked }
        }

        Lock {
            InitialStates { Locked, Unlocked }

            TurnKey {
                Locked => Unlocked
                Unlocked => Locked
            }
        }",
    );
    let left = Machines::parse(&t).unwrap();

    let right = Machines(vec![
        Machine {
            name: "TurnStile".to_string(),
            initial_states: InitialStates(vec![initial("Locked"), initial("Unlocked")]),
            transitions: Transitions(vec![
                edge("Coin", "Locked", "Unlocked"),
                edge("Push", "Unlocked", "Locked"),
            ]),
        },
        Machine {
            name: "Lock".to_string(),
            initial_states: InitialStates(vec![initial("Locked"), initial("Unlocked")]),
            transitions: Transitions(vec![
                edge("TurnKey", "Locked", "Unlocked"),
                edge("TurnKey", "Unlocked", "Locked"),
            ]),
        },
    ]);

    assert_eq!(left, right);
}

#[test]
fn test_state_to_tokens() {
    let left = "
        #[derive(Clone, Copy, Debug, Eq)]
        pub struct Unlocked;
        impl State for Unlocked {}
    ";

    let mut right = String::new();
    state("Unlocked").to_tokens(&mut right);

    assert!(same_code(left, &right));
}

#[test]
fn test_event_to_tokens() {
    let left = "
        #[derive(Clone, Copy, Debug, Eq)]
        pub struct Push;
        impl Event for Push {}
    ";

    let mut right = String::new();
    event("Push").to_tokens(&mut right);

    assert!(same_code(left, &right));
}

#[test]
fn test_states_to_tokens() {
    let states = States(vec![state("Locked"), state("Unlocked")]);

    let left = "
        #[derive(Clone, Copy, Debug, Eq)]
        pub struct Locked;
        impl State for Locked {}

        impl PartialEq<Locked> for Locked {
            fn eq(&self, _: &Locked) -> bool {
                true
            }
        }

        impl PartialEq<Unlocked> for Locked {
            fn eq(&self, _: &Unlocked) -> bool {
                false
            }
        }

        #[derive(Clone, Copy, Debug, Eq)]
        pub struct Unlocked;
        impl State for Unlocked {}

        impl PartialEq<Locked> for Unlocked {
            fn eq(&self, _: & Locked) -> bool {
                false
            }
        }

        impl PartialEq<Unlocked> for Unlocked {
            fn eq(&self, _: & Unlocked) -> bool {
                true
            }
        }
    ";

    let mut right = String::new();
    states.to_tokens(&mut right);

    assert!(same_code(left, &right));
}

#[test]
fn test_events_to_tokens() {
    let events = Events(vec![event("Push"), event("Coin")]);

    let left = "
        #[derive(Clone, Copy, Debug, Eq)]
        pub struct Push;
        impl Event for Push {}

        impl PartialEq<Push> for Push {
            fn eq(&self, _: &Push) -> bool {
                true
            }
        }

        impl PartialEq<Coin> for Push {
            fn eq(&self, _: &Coin) -> bool {
                false
            }
        }

        #[derive(Clone, Copy, Debug, Eq)]
        pub struct Coin;
        impl Event for Coin {}

        impl PartialEq<Push> for Coin {
            fn eq(&self, _: & Push) -> bool {
                false
            }
        }

        impl PartialEq<Coin> for Coin {
            fn eq(&self, _: & Coin) -> bool {
                true
            }
        }
    ";

    let mut right = String::new();
    events.to_tokens(&mut right);

    assert!(same_code(left, &right));
}

#[test]
fn test_initial_state_to_tokens() {
    let left = "
        impl InitialState for Unlocked {}
    ";

    let mut right = String::new();
    initial("Unlocked").to_tokens(&mut right);

    assert!(same_code(left, &right));
}

#[test]
fn test_initial_states_to_tokens() {
    let initial_states = InitialStates(vec![initial("Locked"), initial("Unlocked")]);

    let left = "
        impl InitialState for Locked {}
        impl InitialState for Unlocked {}
    ";

    let mut right = String::new();
    initial_states.to_tokens(&mut right);

    assert!(same_code(left, &right));
}

#[test]
fn test_transition_to_tokens() {
    let left = "
        impl<E: Event> Transition<Push> for Machine<Locked, E> {
            type Machine = Machine<Unlocked, Push>;

            fn transition(self, event: Push) -> Self::Machine {
                Machine(Unlocked, Some(event))
            }
        }
    ";

    let mut right = String::new();
    edge("Push", "Locked", "Unlocked").to_tokens(&mut right);

    assert!(same_code(left, &right));
}

#[test]
fn test_transitions_to_tokens() {
    let transitions = Transitions(vec![
        edge("Push", "Locked", "Locked"),
        edge("Push", "Unlocked", "Locked"),
        edge("Coin", "Locked", "Unlocked"),
        edge("Coin", "Unlocked", "Unlocked"),
    ]);

    let left = "
        impl<E: Event> Transition<Push> for Machine<Locked, E> {
            type Machine = Machine<Locked, Push>;

            fn transition(self, event: Push) -> Self::Machine {
                Machine(Locked, Some(event))
            }
        }

        impl<E: Event> Transition<Push> for Machine<Unlocked, E> {
            type Machine = Machine<Locked, Push>;

            fn transition(self, event: Push) -> Self::Machine {
                Machine(Locked, Some(event))
            }
        }

        impl<E: Event> Transition<Coin> for Machine<Locked, E> {
            type Machine = Machine<Unlocked, Coin>;

            fn transition(self, event: Coin) -> Self::Machine {
                Machine(Unlocked, Some(event))
            }
        }

        impl<E: Event> Transition<Coin> for Machine<Unlocked, E> {
            type Machine = Machine<Unlocked, Coin>;

            fn transition(self, event: Coin) -> Self::Machine {
                Machine(Unlocked, Some(event))
            }
        }
    ";

    let mut right = String::new();
    transitions.to_tokens(&mut right);

    assert!(same_code(left, &right));
}

#[test]
fn test_machine_to_tokens() {
    let machine = Machine {
        name: "TurnStile".to_string(),
        initial_states: InitialStates(vec![initial("Unlocked"), initial("Locked")]),
        transitions: Transitions(vec![edge("Push", "Unlocked", "Locked")]),
    };

    let body = "
        #[derive(Clone, Copy, Debug, Eq)]
        pub struct Unlocked;
        impl State for Unlocked {}

        impl PartialEq<Unlocked> for Unlocked {
            fn eq(&self, _: & Unlocked) -> bool {
                true
            }
        }

        impl PartialEq<Locked> for Unlocked {
            fn eq(&self, _: & Locked) -> bool {
                false
            }
        }

        #[derive(Clone, Copy, Debug, Eq)]
        pub struct Locked;
        impl State for Locked {}

        impl PartialEq<Unlocked> for Locked {
            fn eq(&self, _: &Unlocked) -> bool {
                false
            }
        }

        impl PartialEq<Locked> for Locked {
            fn eq(&self, _: &Locked) -> bool {
                true
            }
        }

        impl InitialState for Unlocked {}
        impl InitialState for Locked {}

        #[derive(Clone, Copy, Debug, Eq)]
        pub struct Push;
        impl Event for Push {}

        impl PartialEq<Push> for Push {
            fn eq(&self, _: &Push) -> bool {
                true
            }
        }

        #[derive(Debug)]
        pub enum Variant {
            InitialUnlocked(Machine<Unlocked, NoneEvent>),
            InitialLocked(Machine<Locked, NoneEvent>),
            LockedByPush(Machine<Locked, Push>),
        }

        impl AsEnum for Machine<Unlocked, NoneEvent> {
            type Enum = Variant;

            fn as_enum(self) -> Self::Enum {
                Variant::InitialUnlocked(self)
            }
        }

        impl AsEnum for Machine<Locked, NoneEvent> {
            type Enum = Variant;

            fn as_enum(self) -> Self::Enum {
                Variant::InitialLocked(self)
            }
        }

        impl AsEnum for Machine<Locked, Push> {
            type Enum = Variant;

            fn as_enum(self) -> Self::Enum {
                Variant::LockedByPush(self)
            }
        }

        impl<E: Event> Transition<Push> for Machine<Unlocked, E> {
            type Machine = Machine<Locked, Push>;

            fn transition(self, event: Push) -> Self::Machine {
                Machine(Locked, Some(event))
            }
        }
    ";
    let left = format!("#[allow(non_snake_case)] mod TurnStile {{ {} {} }}", PRELUDE, body);

    let mut right = String::new();
    machine.to_tokens(&mut right);

    assert!(same_code(&left, &right));
}

#[test]
fn test_machines_to_tokens() {
    let machines = Machines(vec![
        Machine {
            name: "TurnStile".to_string(),
            initial_states: InitialStates(vec![initial("Locked"), initial("Unlocked")]),
            transitions: Transitions(vec![
                edge("Coin", "Locked", "Unlocked"),
                edge("Push", "Unlocked", "Locked"),
            ]),
        },
        Machine {
            name: "Lock".to_string(),
            initial_states: InitialStates(vec![initial("Locked"), initial("Unlocked")]),
            transitions: Transitions(vec![
                edge("TurnKey", "Locked", "Unlocked"),
                edge("TurnKey", "Unlocked", "Locked"),
            ]),
        },
    ]);

    let states = "
        #[derive(Clone, Copy, Debug, Eq)]
        pub struct Locked;
        impl State for Locked {}

        impl PartialEq<Locked> for Locked {
            fn eq(&self, _: &Locked) -> bool {
                true
            }
        }

        impl PartialEq<Unlocked> for Locked {
            fn eq(&self, _: &Unlocked) -> bool {
                false
            }
        }

        #[derive(Clone, Copy, Debug, Eq)]
        pub struct Unlocked;
        impl State for Unlocked {}

        impl PartialEq<Locked> for Unlocked {
            fn eq(&self, _: & Locked) -> bool {
                false
            }
        }

        impl PartialEq<Unlocked> for Unlocked {
            fn eq(&self, _: & Unlocked) -> bool {
                true
            }
        }

        impl InitialState for Locked {}
        impl InitialState for Unlocked {}
    ";

    let turnstile = "
        #[derive(Clone, Copy, Debug, Eq)]
        pub struct Coin;
        impl Event for Coin {}

        impl PartialEq<Coin> for Coin {
            fn eq(&self, _: &Coin) -> bool {
                true
            }
        }

        impl PartialEq<Push> for Coin {
            fn eq(&self, _: &Push) -> bool {
                false
            }
        }

        #[derive(Clone, Copy, Debug, Eq)]
        pub struct Push;
        impl Event for Push {}

        impl PartialEq<Coin> for Push {
            fn eq(&self, _: &Coin) -> bool {
                false
            }
        }

        impl PartialEq<Push> for Push {
            fn eq(&self, _: &Push) -> bool {
                true
            }
        }

        #[derive(Debug)]
        pub enum Variant {
            InitialLocked(Machine<Locked, NoneEvent>),
            InitialUnlocked(Machine<Unlocked, NoneEvent>),
            UnlockedByCoin(Machine<Unlocked, Coin>),
            LockedByPush(Machine<Locked, Push>),
        }

        impl AsEnum for Machine<Locked, NoneEvent> {
            type Enum = Variant;

            fn as_enum(self) -> Self::Enum {
                Variant::InitialLocked(self)
            }
        }

        impl AsEnum for Machine<Unlocked, NoneEvent> {
            type Enum = Variant;

            fn as_enum(self) -> Self::Enum {
                Variant::InitialUnlocked(self)
            }
        }

        impl AsEnum for Machine<Unlocked, Coin> {
            type Enum = Variant;

            fn as_enum(self) -> Self::Enum {
                Variant::UnlockedByCoin(self)
            }
        }

        impl AsEnum for Machine<Locked, Push> {
            type Enum = Variant;

            fn as_enum(self) -> Self::Enum {
                Variant::LockedByPush(self)
            }
        }

        impl<E: Event> Transition<Coin> for Machine<Locked, E> {
            type Machine = Machine<Unlocked, Coin>;

            fn transition(self, event: Coin) -> Self::Machine {
                Machine(Unlocked, Some(event))
            }
        }

        impl<E: Event> Transition<Push> for Machine<Unlocked, E> {
            type Machine = Machine<Locked, Push>;

            fn transition(self, event: Push) -> Self::Machine {
                Machine(Locked, Some(event))
            }
        }
    ";

    let lock = "
        #[derive(Clone, Copy, Debug, Eq)]
        pub struct TurnKey;
        impl Event for TurnKey {}

        impl PartialEq<TurnKey> for TurnKey {
            fn eq(&self, _: &TurnKey) -> bool {
                true
            }
        }

        #[derive(Debug)]
        pub enum Variant {
            InitialLocked(Machine<Locked, NoneEvent>),
            InitialUnlocked(Machine<Unlocked, NoneEvent>),
            UnlockedByTurnKey(Machine<Unlocked, TurnKey>),
            LockedByTurnKey(Machine<Locked, TurnKey>),
        }

        impl AsEnum for Machine<Locked, NoneEvent> {
            type Enum = Variant;

            fn as_enum(self) -> Self::Enum {
                Variant::InitialLocked(self)
            }
        }

        impl AsEnum for Machine<Unlocked, NoneEvent> {
            type Enum = Variant;

            fn as_enum(self) -> Self::Enum {
                Variant::InitialUnlocked(self)
            }
        }

        impl AsEnum for Machine<Unlocked, TurnKey> {
            type Enum = Variant;

            fn as_enum(self) -> Self::Enum {
                Variant::UnlockedByTurnKey(self)
            }
        }

        impl AsEnum for Machine<Locked, TurnKey> {
            type Enum = Variant;

            fn as_enum(self) -> Self::Enum {
                Variant::LockedByTurnKey(self)
            }
        }

        impl<E: Event> Transition<TurnKey> for Machine<Locked, E> {
            type Machine = Machine<Unlocked, TurnKey>;

            fn transition(self, event: TurnKey) -> Self::Machine {
                Machine(Unlocked, Some(event))
            }
        }

        impl<E: Event> Transition<TurnKey> for Machine<Unlocked, E> {
            type Machine = Machine<Locked, TurnKey>;

            fn transition(self, event: TurnKey) -> Self::Machine {
                Machine(Locked, Some(event))
            }
        }
    ";

    let left = format!(
        "use ::sm::{{AsEnum, Initializer, Machine as M, Transition}};
        #[allow(non_snake_case)] mod TurnStile {{ {p} {s} {t} }}
        #[allow(non_snake_case)] mod Lock {{ {p} {s} {l} }}",
        p = PRELUDE,
        s = states,
        t = turnstile,
        l = lock,
    );

    let mut right = String::new();
    machines.to_tokens(&mut right);

    assert!(same_code(&left, &right));
}
