//! Blocks: while something holds, an action waits; when something holds, it need not.
use vstd::prelude::*;
use vstd::string::StringExecFns;

use crate::action::Action;
use crate::clock::Clock;
use crate::fact::{FactId, FactSet, FactState};
use crate::text::same;
use crate::time::Timeout;

verus! {

/// What a block does to an action.
#[derive(Clone, Copy, PartialEq, Eq, PartialOrd, Ord, Hash, Debug, Structural)]
pub enum BlockKind {
    /// The action waits at least until the block's deadline: a floor.
    While,
    /// The action waits at most until the block's deadline: a ceiling.
    When,
}

impl BlockKind {
    /// What the kind is called.
    pub open spec fn text(self) -> Seq<char> {
        match self {
            BlockKind::While => "while"@,
            BlockKind::When => "when"@,
        }
    }

    /// What the kind is called.
    pub fn name(self) -> (r: &'static str)
        ensures
            r@ == self.text(),
    {
        match self {
            BlockKind::While => "while",
            BlockKind::When => "when",
        }
    }
}

/// What a block depends on.
#[derive(Clone, Copy, PartialEq, Eq, PartialOrd, Ord, Hash, Debug, Structural)]
pub enum Condition {
    /// Nothing: the block always applies.
    Always,
    /// A fact.
    Fact(FactId),
}

impl Condition {
    /// What the condition is called.
    pub open spec fn text(self) -> Seq<char> {
        match self {
            Condition::Always => "always"@,
            Condition::Fact(fact) => fact.text(),
        }
    }

    /// What is known of the condition.
    pub open spec fn state(self, facts: FactSet) -> FactState {
        match self {
            Condition::Always => FactState::True,
            Condition::Fact(fact) => facts.state(fact),
        }
    }

    /// The one of this name, if there is one.
    pub open spec fn named(name: Seq<char>) -> Option<Condition> {
        if exists|x: Condition| #[trigger] x.text() == name {
            Some(choose|x: Condition| #[trigger] x.text() == name)
        } else {
            None
        }
    }

    /// What the condition is called.
    pub fn name(self) -> (r: &'static str)
        ensures
            r@ == self.text(),
    {
        match self {
            Condition::Always => "always",
            Condition::Fact(fact) => fact.name(),
        }
    }

    /// The condition of this name.
    pub fn from_name(name: &str) -> (r: Option<Self>)
        ensures
            r == Condition::named(name@),
    {
        if same(name, "always") {
            proof {
                lemma_condition_named(Condition::Always);
            }
            return Some(Condition::Always);
        }
        match FactId::from_name(name) {
            Some(fact) => {
                proof {
                    lemma_condition_named(Condition::Fact(fact));
                }
                Some(Condition::Fact(fact))
            },
            None => {
                assert forall|condition: Condition| #[trigger]
                    condition.text() != name@ by {
                    match condition {
                        Condition::Always => {},
                        Condition::Fact(fact) => {
                            assert(fact.text() != name@);
                        },
                    }
                }
                None
            },
        }
    }

    /// What is known of the condition.
    pub fn evaluate(self, facts: &FactSet) -> (r: FactState)
        ensures
            r == self.state(*facts),
    {
        match self {
            Condition::Always => FactState::True,
            Condition::Fact(fact) => facts.get(fact),
        }
    }
}

/// Each name is the name of the condition it was taken from.
pub proof fn lemma_condition_named(x: Condition)
    ensures
        Condition::named(x.text()) == Some(x),
{
    let y = choose|y: Condition| #[trigger] y.text() == x.text();
    condition_names_are_distinct(y, x);
}

/// No two conditions share a name.
pub proof fn condition_names_are_distinct(a: Condition, b: Condition)
    requires
        a.text() == b.text(),
    ensures
        a == b,
{
    match a {
        Condition::Fact(x) => match b {
            Condition::Fact(y) => {
                crate::fact::fact_names_are_distinct(x, y);
            },
            Condition::Always => {
                lemma_no_fact_is_always(x);
            },
        },
        Condition::Always => match b {
            Condition::Fact(y) => {
                lemma_no_fact_is_always(y);
            },
            Condition::Always => {},
        },
    }
}

proof fn lemma_no_fact_is_always(fact: FactId)
    ensures
        fact.text() != "always"@,
{
    reveal_strlit("always");
    assert("always"@.len() == 6);
    reveal_strlit("human_active");
    assert("human_active"@.len() == 12);
    reveal_strlit("after_resume");
    assert("after_resume"@.len() == 12);
    reveal_strlit("remote_session");
    assert("remote_session"@.len() == 14);
    reveal_strlit("lease_held");
    assert("lease_held"@.len() == 10);
    reveal_strlit("inhibitor_block");
    assert("inhibitor_block"@.len() == 15);
    reveal_strlit("media_playing");
    assert("media_playing"@.len() == 13);
    reveal_strlit("steam_game_running");
    assert("steam_game_running"@.len() == 18);
    reveal_strlit("steam_downloading");
    assert("steam_downloading"@.len() == 17);
    reveal_strlit("gpu_busy_game");
    assert("gpu_busy_game"@.len() == 13);
    reveal_strlit("gpu_busy_other");
    assert("gpu_busy_other"@.len() == 14);
    reveal_strlit("local_service_busy");
    assert("local_service_busy"@.len() == 18);
}

/// Which block: its kind and what it depends on.
#[derive(Clone, Copy, PartialEq, Eq, PartialOrd, Ord, Hash, Debug, Structural)]
pub struct BlockId {
    /// What it does to an action.
    pub kind: BlockKind,
    /// What it depends on.
    pub condition: Condition,
}

impl BlockId {
    /// What the block is called: its kind and its condition.
    pub open spec fn text(self) -> Seq<char> {
        self.kind.text() + "."@ + self.condition.text()
    }

    /// The block of this kind and condition.
    pub fn new(kind: BlockKind, condition: Condition) -> (r: Self)
        ensures
            r.kind == kind,
            r.condition == condition,
    {
        BlockId { kind, condition }
    }

    /// What the block is called.
    pub fn to_string(&self) -> (r: String)
        ensures
            r@ == self.text(),
    {
        let mut out = self.kind.name().to_owned();
        out.append(".");
        out.append(self.condition.name());
        out
    }
}

/// How long a block lets each action wait. An action it does not mention it says nothing about.
#[derive(Clone, Copy, PartialEq, Eq, Debug, Structural)]
pub struct Timeouts {
    /// Before the panel darkens.
    pub screen_off: Option<Timeout>,
    /// Before the machine suspends to memory.
    pub suspend: Option<Timeout>,
    /// Before the machine suspends to disk.
    pub hibernate: Option<Timeout>,
    /// Before the machine powers off.
    pub poweroff: Option<Timeout>,
}

impl Timeouts {
    /// What is said of an action.
    pub open spec fn of(self, action: Action) -> Option<Timeout> {
        match action {
            Action::ScreenOff => self.screen_off,
            Action::Suspend => self.suspend,
            Action::Hibernate => self.hibernate,
            Action::PowerOff => self.poweroff,
        }
    }

    /// What is said of an action.
    pub fn get(&self, action: Action) -> (r: Option<Timeout>)
        ensures
            r == self.of(action),
    {
        match action {
            Action::ScreenOff => self.screen_off,
            Action::Suspend => self.suspend,
            Action::Hibernate => self.hibernate,
            Action::PowerOff => self.poweroff,
        }
    }

    /// Says something of an action, and leaves what is said of the others.
    pub fn set(&mut self, action: Action, timeout: Option<Timeout>)
        ensures
            forall|a: Action| #[trigger]
                final(self).of(a) == (if a == action {
                    timeout
                } else {
                    old(self).of(a)
                }),
    {
        match action {
            Action::ScreenOff => self.screen_off = timeout,
            Action::Suspend => self.suspend = timeout,
            Action::Hibernate => self.hibernate = timeout,
            Action::PowerOff => self.poweroff = timeout,
        }
    }

    /// Whether nothing is said of any action.
    pub fn is_empty(&self) -> (r: bool)
        ensures
            r == (forall|a: Action| #[trigger] self.of(a) is None),
    {
        let r = self.screen_off.is_none() && self.suspend.is_none() && self.hibernate.is_none()
            && self.poweroff.is_none();
        proof {
            assert(self.of(Action::ScreenOff) is None == self.screen_off is None);
            assert(self.of(Action::Suspend) is None == self.suspend is None);
            assert(self.of(Action::Hibernate) is None == self.hibernate is None);
            assert(self.of(Action::PowerOff) is None == self.poweroff is None);
        }
        r
    }
}

impl Default for Timeouts {
    fn default() -> (r: Self)
        ensures
            forall|a: Action| #[trigger] r.of(a) is None,
    {
        Timeouts { screen_off: None, suspend: None, hibernate: None, poweroff: None }
    }
}

/// A rule of the policy.
#[derive(Clone, Copy, PartialEq, Eq, Debug, Structural)]
pub struct Block {
    /// Which block it is.
    pub id: BlockId,
    /// What its timeouts are counted from.
    pub clock: Clock,
    /// Whether it takes part at all.
    pub enabled: bool,
    /// How long it lets each action wait.
    pub timeouts: Timeouts,
}

} // verus!
