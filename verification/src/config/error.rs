//! What can be wrong with a configuration, and what to look at twice.
use vstd::prelude::*;
use vstd::string::StringExecFns;

use super::timeout::{timeout_error_text, TimeoutError};
use crate::clock::Clock;
use crate::fact::FactId;
use crate::policy::ConfigFault;
use crate::text::{join, joined, views};

verus! {

/// What is wrong.
#[derive(Clone, Debug)]
pub enum ErrorKind {
    /// The file cannot be read as one: with what stopped the reading.
    Syntax(String),
    /// A block depends on something that is neither `always` nor a fact.
    UnknownCondition {
        /// The name as written.
        name: String,
    },
    /// A table is for something that is no fact.
    UnknownFact {
        /// The name as written.
        name: String,
    },
    /// The table of a fact holds a key that this fact does not have.
    UnknownFactKey {
        /// The fact.
        fact: &'static str,
        /// The key.
        key: &'static str,
    },
    /// A clock that there is not.
    UnknownClock {
        /// The name as written.
        name: String,
    },
    /// A timeout that cannot be read.
    BadTimeout {
        /// The value as written.
        value: String,
        /// Why.
        reason: TimeoutError,
    },
}

/// What is wrong, as a value of the model.
pub enum Problem {
    /// The file cannot be read as one.
    Syntax(Seq<char>),
    /// A block depends on something that is neither `always` nor a fact.
    UnknownCondition(Seq<char>),
    /// A table is for something that is no fact.
    UnknownFact(Seq<char>),
    /// The table of a fact holds a key that this fact does not have.
    UnknownFactKey(Seq<char>, Seq<char>),
    /// A clock that there is not.
    UnknownClock(Seq<char>),
    /// A timeout that cannot be read.
    BadTimeout(Seq<char>, TimeoutError),
}

impl View for ErrorKind {
    type V = Problem;

    open spec fn view(&self) -> Problem {
        match *self {
            ErrorKind::Syntax(message) => Problem::Syntax(message@),
            ErrorKind::UnknownCondition { name } => Problem::UnknownCondition(name@),
            ErrorKind::UnknownFact { name } => Problem::UnknownFact(name@),
            ErrorKind::UnknownFactKey { fact, key } => Problem::UnknownFactKey(fact@, key@),
            ErrorKind::UnknownClock { name } => Problem::UnknownClock(name@),
            ErrorKind::BadTimeout { value, reason } => Problem::BadTimeout(value@, reason),
        }
    }
}

/// The names of the facts, in their order.
pub open spec fn fact_names() -> Seq<Seq<char>> {
    FactId::ALL@.map_values(|f: FactId| f.text())
}

/// The names of the clocks, in their order.
pub open spec fn clock_names() -> Seq<Seq<char>> {
    Clock::ALL@.map_values(|c: Clock| c.text())
}

/// The message of a problem.
pub open spec fn problem_text(problem: Problem) -> Seq<char> {
    match problem {
        Problem::Syntax(message) => message,
        Problem::UnknownCondition(name) => "unknown condition \""@ + name
            + "\". Valid conditions are: "@ + joined(seq!["always"@] + fact_names(), ", "@),
        Problem::UnknownFact(name) => "unknown fact \""@ + name + "\". Valid facts are: "@ + joined(
            fact_names(),
            ", "@,
        ),
        Problem::UnknownFactKey(fact, key) => "\""@ + key + "\" is not a key of the \""@ + fact
            + "\" fact"@,
        Problem::UnknownClock(name) => "unknown clock \""@ + name + "\". Valid clocks are: "@
            + joined(clock_names(), ", "@),
        Problem::BadTimeout(value, reason) => "cannot parse \""@ + value + "\": "@
            + timeout_error_text(reason),
    }
}

/// The names of the facts, after those already listed.
fn push_fact_names(out: &mut Vec<String>)
    ensures
        views(final(out)@) == views(old(out)@) + fact_names(),
{
    let all = FactId::ALL;
    let ghost before = views(out@);
    let mut i: usize = 0;
    while i < 11
        invariant
            i <= 11,
            all@ == FactId::ALL@,
            fact_names().len() == 11,
            views(out@) == before + fact_names().take(i as int),
        decreases 11 - i,
    {
        let ghost so_far = views(out@);
        let name = all[i].name().to_owned();
        assert(views(out@.push(name)) =~= so_far.push(name@));
        out.push(name);
        i += 1;
        assert(fact_names().take(i as int) =~= fact_names().take(i as int - 1).push(
            fact_names()[i as int - 1],
        ));
        assert(before + fact_names().take(i as int) =~= (before + fact_names().take(i as int - 1)).push(
            fact_names()[i as int - 1],
        ));
    }
    assert(fact_names().take(11) =~= fact_names());
}

fn clock_name_list() -> (out: Vec<String>)
    ensures
        views(out@) == clock_names(),
{
    let mut out: Vec<String> = Vec::new();
    let all = Clock::ALL;
    let mut i: usize = 0;
    while i < 4
        invariant
            i <= 4,
            all@ == Clock::ALL@,
            clock_names().len() == 4,
            views(out@) == clock_names().take(i as int),
        decreases 4 - i,
    {
        let ghost so_far = views(out@);
        let name = all[i].name().to_owned();
        assert(views(out@.push(name)) =~= so_far.push(name@));
        out.push(name);
        i += 1;
        assert(clock_names().take(i as int) =~= clock_names().take(i as int - 1).push(
            clock_names()[i as int - 1],
        ));
    }
    assert(clock_names().take(4) =~= clock_names());
    out
}

impl ErrorKind {
    /// The message of the problem.
    pub fn to_string(&self) -> (r: String)
        ensures
            r@ == problem_text(self@),
    {
        match self {
            ErrorKind::Syntax(message) => message.clone(),
            ErrorKind::UnknownCondition { name } => {
                let mut out = "unknown condition \"".to_owned();
                out.append(name.as_str());
                out.append("\". Valid conditions are: ");
                let mut names: Vec<String> = Vec::new();
                names.push("always".to_owned());
                assert(views(names@) =~= seq!["always"@]);
                push_fact_names(&mut names);
                let list = join(&names, ", ");
                out.append(list.as_str());
                out
            },
            ErrorKind::UnknownFact { name } => {
                let mut out = "unknown fact \"".to_owned();
                out.append(name.as_str());
                out.append("\". Valid facts are: ");
                let mut names: Vec<String> = Vec::new();
                push_fact_names(&mut names);
                assert(views(names@) =~= fact_names());
                let list = join(&names, ", ");
                out.append(list.as_str());
                out
            },
            ErrorKind::UnknownFactKey { fact, key } => {
                let mut out = "\"".to_owned();
                out.append(key);
                out.append("\" is not a key of the \"");
                out.append(fact);
                out.append("\" fact");
                out
            },
            ErrorKind::UnknownClock { name } => {
                let mut out = "unknown clock \"".to_owned();
                out.append(name.as_str());
                out.append("\". Valid clocks are: ");
                let names = clock_name_list();
                let list = join(&names, ", ");
                out.append(list.as_str());
                out
            },
            ErrorKind::BadTimeout { value, reason } => {
                let mut out = "cannot parse \"".to_owned();
                out.append(value.as_str());
                out.append("\": ");
                let why = reason.to_string();
                out.append(why.as_str());
                out
            },
        }
    }
}

/// Something wrong with a configuration, and where.
#[derive(Clone, Debug)]
pub struct ConfigError {
    /// The file, as its reader called it.
    pub source: String,
    /// The key, such as `while.always.suspend`; empty where it is the whole file.
    pub location: String,
    /// What is wrong.
    pub kind: ErrorKind,
}

/// Something wrong with a configuration, and where, as a value of the model.
pub struct Complaint {
    /// The file.
    pub source: Seq<char>,
    /// The key.
    pub location: Seq<char>,
    /// What is wrong.
    pub problem: Problem,
}

impl View for ConfigError {
    type V = Complaint;

    open spec fn view(&self) -> Complaint {
        Complaint { source: self.source@, location: self.location@, problem: self.kind@ }
    }
}

/// What the errors of a list are, in order.
pub open spec fn complaints(errors: Seq<ConfigError>) -> Seq<Complaint> {
    errors.map_values(|e: ConfigError| e@)
}

/// Whether a fault of a policy records an error.
pub open spec fn records(fault: ConfigFault, complaint: Complaint) -> bool {
    &&& fault.source@ == complaint.source
    &&& fault.location@ == complaint.location
    &&& fault.message@ == problem_text(complaint.problem)
}

/// An error in one line: the file, the key if there is one, and the message.
pub open spec fn complaint_text(c: Complaint) -> Seq<char> {
    if c.location.len() == 0 {
        c.source + ": "@ + problem_text(c.problem)
    } else {
        c.source + ": "@ + c.location + ": "@ + problem_text(c.problem)
    }
}

impl ConfigError {
    /// The message without the file and the key.
    pub fn detail(&self) -> (r: String)
        ensures
            r@ == problem_text(self.kind@),
    {
        self.kind.to_string()
    }

    /// The fault that a policy records of the error.
    pub fn as_fault(&self) -> (r: ConfigFault)
        ensures
            records(r, self@),
    {
        ConfigFault {
            source: self.source.clone(),
            location: self.location.clone(),
            message: self.detail(),
        }
    }

    /// The error in one line.
    pub fn to_string(&self) -> (r: String)
        ensures
            r@ == complaint_text(self@),
    {
        let mut out = self.source.clone();
        if !self.location.as_str().is_empty() {
            out.append(": ");
            out.append(self.location.as_str());
        }
        out.append(": ");
        let why = self.kind.to_string();
        out.append(why.as_str());
        out
    }
}

/// Something to look at twice, which is not wrong.
#[derive(Clone, Debug)]
pub struct Warning {
    /// The file.
    pub source: String,
    /// The key.
    pub location: String,
    /// What to look at.
    pub message: String,
}

/// Something to look at twice, as a value of the model.
pub struct Notice {
    /// The file.
    pub source: Seq<char>,
    /// The key.
    pub location: Seq<char>,
    /// What to look at.
    pub message: Seq<char>,
}

impl View for Warning {
    type V = Notice;

    open spec fn view(&self) -> Notice {
        Notice { source: self.source@, location: self.location@, message: self.message@ }
    }
}

/// What the warnings of a list are, in order.
pub open spec fn notices(warnings: Seq<Warning>) -> Seq<Notice> {
    warnings.map_values(|w: Warning| w@)
}

impl Warning {
    /// The warning in one line.
    pub fn to_string(&self) -> (r: String)
        ensures
            r@ == self.source@ + ": "@ + self.location@ + ": "@ + self.message@,
    {
        let mut out = self.source.clone();
        out.append(": ");
        out.append(self.location.as_str());
        out.append(": ");
        out.append(self.message.as_str());
        out
    }
}

} // verus!
