//! What the machine can be made to do.
use vstd::prelude::*;

use crate::text::same;

verus! {

/// What the machine can be made to do, from the shallowest to the deepest.
#[derive(Clone, Copy, PartialEq, Eq, PartialOrd, Ord, Hash, Debug, Structural)]
pub enum Action {
    /// Darken the panel.
    ScreenOff,
    /// Suspend to memory.
    Suspend,
    /// Suspend to disk.
    Hibernate,
    /// Power off.
    PowerOff,
}

impl Action {
    /// Every action, from the shallowest to the deepest.
    pub const ALL: [Action; 4] = [
        Action::ScreenOff,
        Action::Suspend,
        Action::Hibernate,
        Action::PowerOff,
    ];

    /// What the action is called in a configuration and on the bus.
    pub open spec fn text(self) -> Seq<char> {
        match self {
            Action::ScreenOff => "screen_off"@,
            Action::Suspend => "suspend"@,
            Action::Hibernate => "hibernate"@,
            Action::PowerOff => "poweroff"@,
        }
    }

    /// Whether the action puts the machine to sleep.
    pub open spec fn sleeps(self) -> bool {
        self != Action::ScreenOff
    }

    /// The one of this name, if there is one.
    pub open spec fn named(name: Seq<char>) -> Option<Action> {
        if exists|x: Action| #[trigger] x.text() == name {
            Some(choose|x: Action| #[trigger] x.text() == name)
        } else {
            None
        }
    }

    /// What the action is called in a configuration and on the bus.
    pub fn name(self) -> (r: &'static str)
        ensures
            r@ == self.text(),
    {
        match self {
            Action::ScreenOff => "screen_off",
            Action::Suspend => "suspend",
            Action::Hibernate => "hibernate",
            Action::PowerOff => "poweroff",
        }
    }

    /// The action of this name.
    pub fn from_name(name: &str) -> (r: Option<Self>)
        ensures
            r == Action::named(name@),
    {
        if same(name, "screen_off") {
            proof {
                lemma_action_named(Action::ScreenOff);
            }
            return Some(Action::ScreenOff);
        }
        if same(name, "suspend") {
            proof {
                lemma_action_named(Action::Suspend);
            }
            return Some(Action::Suspend);
        }
        if same(name, "hibernate") {
            proof {
                lemma_action_named(Action::Hibernate);
            }
            return Some(Action::Hibernate);
        }
        if same(name, "poweroff") {
            proof {
                lemma_action_named(Action::PowerOff);
            }
            return Some(Action::PowerOff);
        }
        None
    }

    /// Whether the action puts the machine to sleep. Darkening the panel does not.
    pub fn is_sleep(self) -> (r: bool)
        ensures
            r == self.sleeps(),
    {
        !matches!(self, Action::ScreenOff)
    }

    /// Whether doubt about a fact keeps the action from happening.
    ///
    /// A lit panel costs something and a darkened one costs nothing that a key press does not
    /// give back, so doubt vetoes every action but that one.
    pub fn vetoed_by_doubt(self) -> (r: bool)
        ensures
            r == self.sleeps(),
    {
        !matches!(self, Action::ScreenOff)
    }
}

/// Each name is the name of the one it was taken from.
pub proof fn lemma_action_named(x: Action)
    ensures
        Action::named(x.text()) == Some(x),
{
    let y = choose|y: Action| #[trigger] y.text() == x.text();
    action_names_are_distinct(y, x);
}

/// No two actions share a name.
pub proof fn action_names_are_distinct(a: Action, b: Action)
    requires
        a.text() == b.text(),
    ensures
        a == b,
{
    reveal_strlit("screen_off");
    assert("screen_off"@.len() == 10 && "screen_off"@[0] == 's');
    reveal_strlit("suspend");
    assert("suspend"@.len() == 7 && "suspend"@[0] == 's');
    reveal_strlit("hibernate");
    assert("hibernate"@.len() == 9 && "hibernate"@[0] == 'h');
    reveal_strlit("poweroff");
    assert("poweroff"@.len() == 8 && "poweroff"@[0] == 'p');
}

} // verus!
