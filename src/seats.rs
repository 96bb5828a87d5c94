use vstd::prelude::*;

verus! {

/// The number of seats at a table.
pub const SEAT: usize = 4;

/// The agent bound to a seat: the no-op agent, which never decides anything,
/// or an agent of the registry, by name.
#[derive(Debug)]
pub enum Agent {
    Nop,
    Named(String),
}

impl Agent {
    pub fn is_nop(&self) -> (r: bool)
        ensures
            r == (*self is Nop),
    {
        match self {
            Agent::Nop => true,
            Agent::Named(_) => false,
        }
    }
}

#[derive(Clone, Copy, Debug, PartialEq, Eq, Structural)]
pub enum ConfigError {
    /// An option that the program does not know.
    UnknownOption,
    /// An option that takes a value came last.
    MissingValue,
    /// The port given is not a number that fits in 32 bits.
    InvalidPort,
    /// No input file or directory was given.
    NoInputFile,
    /// A seat names an agent that the registry does not know.
    UnknownAgent,
}

/// The agents that can be bound to seats, by name.
pub struct AgentRegistry {
    pub names: Vec<String>,
}

/// What a seat configured with `name` gets, where every name is known: the
/// no-op agent for an empty name, the named agent otherwise.
pub open spec fn seat_agent_is(a: Agent, name: Seq<char>) -> bool {
    if name.len() == 0 {
        a is Nop
    } else {
        a matches Agent::Named(n) && n@ == name
    }
}

impl AgentRegistry {
    pub fn new(names: Vec<String>) -> (r: AgentRegistry)
        ensures
            r.names@ == names@,
    {
        AgentRegistry { names }
    }

    pub open spec fn knows(&self, name: Seq<char>) -> bool {
        exists|i: int| 0 <= i < self.names@.len() && #[trigger] self.names@[i]@ == name
    }

    /// A fresh agent of the given name.
    pub fn create(&self, name: &String) -> (r: Result<Agent, ConfigError>)
        ensures
            self.knows(name@) ==> (r matches Ok(Agent::Named(n)) && n@ == name@),
            !self.knows(name@) ==> r == Err::<Agent, ConfigError>(ConfigError::UnknownAgent),
    {
        let mut i: usize = 0;
        while i < self.names.len()
            invariant
                i <= self.names@.len(),
                forall|k: int| 0 <= k < i ==> #[trigger] self.names@[k]@ != name@,
            decreases self.names@.len() - i,
        {
            if self.names[i] == *name {
                return Ok(Agent::Named(name.clone()));
            }
            i = i + 1;
        }
        Err(ConfigError::UnknownAgent)
    }

    /// The agent that fills every seat that no name is given for.
    pub fn clone_default(&self) -> (r: Agent)
        ensures
            r is Nop,
    {
        Agent::Nop
    }

    /// The agents of the four seats, from the name configured for each; an
    /// empty name leaves the seat to the no-op agent.
    pub fn assign_seats(&self, names: &Vec<String>) -> (r: Result<Vec<Agent>, ConfigError>)
        requires
            names@.len() == SEAT,
        ensures
            (forall|s: int|
                0 <= s < SEAT ==> #[trigger] names@[s]@.len() == 0 || self.knows(names@[s]@))
                <==> r is Ok,
            r is Err ==> r == Err::<Vec<Agent>, ConfigError>(ConfigError::UnknownAgent),
            r matches Ok(seats) ==> (seats@.len() == SEAT && forall|s: int|
                0 <= s < SEAT ==> seat_agent_is(#[trigger] seats@[s], names@[s]@)),
    {
        let mut seats: Vec<Agent> = Vec::new();
        let mut s: usize = 0;
        while s < SEAT
            invariant
                s <= SEAT,
                names@.len() == SEAT,
                seats@.len() == s,
                forall|k: int| 0 <= k < s ==> seat_agent_is(#[trigger] seats@[k], names@[k]@),
                forall|k: int| 0 <= k < s ==> #[trigger] names@[k]@.len() == 0 || self.knows(names@[k]@),
            decreases SEAT - s,
        {
            if names[s].as_str().is_empty() {
                seats.push(self.clone_default());
            } else {
                match self.create(&names[s]) {
                    Ok(a) => seats.push(a),
                    Err(e) => {
                        return Err(e);
                    },
                }
            }
            s = s + 1;
        }
        Ok(seats)
    }
}

} // verus!
