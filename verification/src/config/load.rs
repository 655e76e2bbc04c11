//! From layers to a policy.
use vstd::prelude::*;
use vstd::string::StringExecFns;

use super::document::{file_of_text, parse, Source};
use super::error::{
    complaints, notices, records, Complaint, ConfigError, ErrorKind, Notice, Problem, Warning,
};
use super::section::{
    block_tables, blocks_over, fact_tables, file_over, keys_of, keys_set, no_file_keys, over,
    spelled, value_view, written_duration, written_timeout, BlockKeys, BlockSection, ConfigFile,
    FactKeys, FactSection, FileKeys, TimeoutValue, Written,
};
use super::timeout::format_timeout;
use crate::action::Action;
use crate::block::{Block, BlockId, BlockKind, Condition, Timeouts};
use crate::clock::Clock;
use crate::fact::{FactId, FactMap};
use crate::names::{in_order, NameMap};
use crate::policy::{
    default_settings, text_view, ConfigFault, FactSettings, Policy, DEFAULT_MIN_IDLE_SECS,
};
use crate::time::{Duration, Timeout};

verus! {

/// The file that the package ships, read first.
pub const VENDOR_CONFIG: &'static str = "/usr/lib/idlectl/idlectl.toml";

/// The file of the administrator.
pub const ADMIN_CONFIG: &'static str = "/etc/idlectl/idlectl.toml";

/// The directory of further files, read last and in the order of their names.
pub const DROPIN_DIR: &'static str = "/etc/idlectl/conf.d";

/// When the panel darkens where the file that the package ships cannot be used: in seconds.
pub const FALLBACK_SCREEN_OFF_SECS: u64 = 900;

// ---- one file on its own --------------------------------------------------------------

/// The complaint about a timeout that cannot be read.
pub open spec fn timeout_problems(
    label: Seq<char>,
    location: Seq<char>,
    written: Option<Written>,
) -> Seq<Complaint> {
    match written {
        Some(w) => match written_timeout(w) {
            Err(reason) => seq![
                Complaint {
                    source: label,
                    location,
                    problem: Problem::BadTimeout(spelled(w), reason),
                },
            ],
            Ok(_) => Seq::empty(),
        },
        None => Seq::empty(),
    }
}

/// The complaint about a span that cannot be read.
pub open spec fn duration_problems(
    label: Seq<char>,
    location: Seq<char>,
    written: Option<Written>,
) -> Seq<Complaint> {
    match written {
        Some(w) => match written_duration(w) {
            Err(reason) => seq![
                Complaint {
                    source: label,
                    location,
                    problem: Problem::BadTimeout(spelled(w), reason),
                },
            ],
            Ok(_) => Seq::empty(),
        },
        None => Seq::empty(),
    }
}

/// The complaints about keys that a fact does not have.
pub open spec fn key_problems(
    label: Seq<char>,
    path: Seq<char>,
    fact: FactId,
    keys: Seq<Seq<char>>,
) -> Seq<Complaint>
    decreases keys.len(),
{
    if keys.len() == 0 {
        Seq::empty()
    } else {
        let before = key_problems(label, path, fact, keys.drop_last());
        if keys_of(fact).contains(keys.last()) {
            before
        } else {
            before.push(
                Complaint {
                    source: label,
                    location: path + "."@ + keys.last(),
                    problem: Problem::UnknownFactKey(fact.text(), keys.last()),
                },
            )
        }
    }
}

/// The complaints about the table of a fact.
pub open spec fn fact_problems(label: Seq<char>, name: Seq<char>, keys: FactKeys) -> Seq<Complaint> {
    let path = "facts."@ + name;
    match FactId::named(name) {
        None => seq![
            Complaint { source: label, location: path, problem: Problem::UnknownFact(name) },
        ],
        Some(fact) => key_problems(label, path, fact, keys_set(keys)) + duration_problems(
            label,
            path + ".idle_window"@,
            keys.idle_window,
        ) + duration_problems(label, path + ".window"@, keys.window),
    }
}

/// The complaints about the tables of facts, in the order of the names.
pub open spec fn facts_problems(
    label: Seq<char>,
    tables: Map<Seq<char>, FactKeys>,
    names: Seq<Seq<char>>,
) -> Seq<Complaint>
    decreases names.len(),
{
    if names.len() == 0 {
        Seq::empty()
    } else {
        facts_problems(label, tables, names.drop_last()) + fact_problems(
            label,
            names.last(),
            tables[names.last()],
        )
    }
}

/// Where a block stands in a file.
pub open spec fn block_path(kind: BlockKind, name: Seq<char>) -> Seq<char> {
    kind.text() + "."@ + name
}

/// The complaint about a condition that there is not.
pub open spec fn condition_problems(label: Seq<char>, kind: BlockKind, name: Seq<char>) -> Seq<
    Complaint,
> {
    if Condition::named(name) is None {
        seq![
            Complaint {
                source: label,
                location: block_path(kind, name),
                problem: Problem::UnknownCondition(name),
            },
        ]
    } else {
        Seq::empty()
    }
}

/// The complaint about a clock that there is not.
pub open spec fn clock_problems(
    label: Seq<char>,
    kind: BlockKind,
    name: Seq<char>,
    clock: Option<Seq<char>>,
) -> Seq<Complaint> {
    match clock {
        Some(raw) => if Clock::named(raw) is None {
            seq![
                Complaint {
                    source: label,
                    location: block_path(kind, name) + ".clock"@,
                    problem: Problem::UnknownClock(raw),
                },
            ]
        } else {
            Seq::empty()
        },
        None => Seq::empty(),
    }
}

/// Where the timeout of an action stands in a file.
pub open spec fn timeout_path(kind: BlockKind, name: Seq<char>, action: Action) -> Seq<char> {
    block_path(kind, name) + "."@ + action.text()
}

/// The complaints about the table of a block.
pub open spec fn block_problems(
    label: Seq<char>,
    kind: BlockKind,
    name: Seq<char>,
    keys: BlockKeys,
) -> Seq<Complaint> {
    condition_problems(label, kind, name) + clock_problems(label, kind, name, keys.clock)
        + timeout_problems(
        label,
        timeout_path(kind, name, Action::ScreenOff),
        keys.screen_off,
    ) + timeout_problems(label, timeout_path(kind, name, Action::Suspend), keys.suspend)
        + timeout_problems(label, timeout_path(kind, name, Action::Hibernate), keys.hibernate)
        + timeout_problems(label, timeout_path(kind, name, Action::PowerOff), keys.poweroff)
}

/// The complaints about the tables of blocks of a kind, in the order of the names.
pub open spec fn blocks_problems(
    label: Seq<char>,
    kind: BlockKind,
    tables: Map<Seq<char>, BlockKeys>,
    names: Seq<Seq<char>>,
) -> Seq<Complaint>
    decreases names.len(),
{
    if names.len() == 0 {
        Seq::empty()
    } else {
        blocks_problems(label, kind, tables, names.drop_last()) + block_problems(
            label,
            kind,
            names.last(),
            tables[names.last()],
        )
    }
}

/// The complaints about a file, on its own.
pub open spec fn file_problems(label: Seq<char>, file: FileKeys) -> Seq<Complaint> {
    duration_problems(label, "general.min_idle"@, file.min_idle) + facts_problems(
        label,
        file.facts,
        in_order(file.facts.dom()),
    ) + blocks_problems(
        label,
        BlockKind::While,
        file.while_blocks,
        in_order(file.while_blocks.dom()),
    ) + blocks_problems(label, BlockKind::When, file.when, in_order(file.when.dom()))
}

fn push_complaint(errors: &mut Vec<ConfigError>, label: &str, location: String, kind: ErrorKind)
    ensures
        complaints(final(errors)@) == complaints(old(errors)@).push(
            (Complaint { source: label@, location: location@, problem: kind@ }),
        ),
{
    let error = ConfigError { source: label.to_owned(), location, kind };
    assert(complaints(errors@.push(error)) =~= complaints(errors@).push(error@));
    errors.push(error);
}

fn check_duration(
    errors: &mut Vec<ConfigError>,
    label: &str,
    location: String,
    raw: &Option<TimeoutValue>,
)
    ensures
        complaints(final(errors)@) == complaints(old(errors)@) + duration_problems(
            label@,
            location@,
            value_view(*raw),
        ),
{
    let ghost before = complaints(errors@);
    match raw {
        Some(value) => match value.parse_finite() {
            Err(reason) => {
                let ghost place = location@;
                push_complaint(
                    errors,
                    label,
                    location,
                    ErrorKind::BadTimeout { value: value.as_written(), reason },
                );
                assert(complaints(errors@) =~= before + duration_problems(
                    label@,
                    place,
                    value_view(*raw),
                ));
            },
            Ok(_) => {
                assert(complaints(errors@) =~= before + Seq::<Complaint>::empty());
            },
        },
        None => {
            assert(complaints(errors@) =~= before + Seq::<Complaint>::empty());
        },
    }
}

fn check_timeout(
    errors: &mut Vec<ConfigError>,
    label: &str,
    location: String,
    raw: Option<&TimeoutValue>,
)
    ensures
        complaints(final(errors)@) == complaints(old(errors)@) + timeout_problems(
            label@,
            location@,
            match raw {
                Some(value) => Some(value@),
                None => None,
            },
        ),
{
    let ghost before = complaints(errors@);
    match raw {
        Some(value) => match value.parse() {
            Err(reason) => {
                let ghost place = location@;
                push_complaint(
                    errors,
                    label,
                    location,
                    ErrorKind::BadTimeout { value: value.as_written(), reason },
                );
                assert(complaints(errors@) =~= before + timeout_problems(
                    label@,
                    place,
                    Some(value@),
                ));
            },
            Ok(_) => {
                assert(complaints(errors@) =~= before + Seq::<Complaint>::empty());
            },
        },
        None => {
            assert(complaints(errors@) =~= before + Seq::<Complaint>::empty());
        },
    }
}

/// A path with a dot and a key behind it.
fn dotted(path: &str, key: &str) -> (r: String)
    ensures
        r@ == path@ + "."@ + key@,
{
    let mut out = path.to_owned();
    out.append(".");
    out.append(key);
    out
}

fn joined_path(path: &str, key: &str) -> (r: String)
    ensures
        r@ == path@ + key@,
{
    let mut out = path.to_owned();
    out.append(key);
    out
}

fn holds_key(keys: &Vec<&'static str>, key: &str) -> (r: bool)
    ensures
        r == super::section::str_views(keys@).contains(key@),
{
    let ghost names = super::section::str_views(keys@);
    let mut i: usize = 0;
    while i < keys.len()
        invariant
            i <= keys@.len(),
            names == super::section::str_views(keys@),
            forall|j: int| 0 <= j < i ==> #[trigger] names[j] != key@,
        decreases keys@.len() - i,
    {
        if crate::text::same(keys[i], key) {
            assert(names[i as int] == key@);
            return true;
        }
        i += 1;
    }
    false
}

fn check_keys(
    errors: &mut Vec<ConfigError>,
    label: &str,
    path: &str,
    fact: FactId,
    section: &FactSection,
)
    ensures
        complaints(final(errors)@) == complaints(old(errors)@) + key_problems(
            label@,
            path@,
            fact,
            keys_set(section@),
        ),
{
    let allowed = FactSection::allowed_keys(fact);
    let present = section.keys_present();
    let ghost keys = keys_set(section@);
    let ghost before = complaints(errors@);
    let mut i: usize = 0;
    assert(before + key_problems(label@, path@, fact, keys.take(0)) =~= before);
    while i < present.len()
        invariant
            i <= present@.len(),
            keys == super::section::str_views(present@),
            super::section::str_views(allowed@) == keys_of(fact),
            complaints(errors@) == before + key_problems(label@, path@, fact, keys.take(i as int)),
        decreases present@.len() - i,
    {
        let key = present[i];
        assert(keys[i as int] == key@);
        assert(keys.take(i as int + 1).drop_last() =~= keys.take(i as int));
        let ghost so_far = key_problems(label@, path@, fact, keys.take(i as int));
        if !holds_key(&allowed, key) {
            let location = dotted(path, key);
            push_complaint(
                errors,
                label,
                location,
                ErrorKind::UnknownFactKey { fact: fact.name(), key },
            );
            assert(complaints(errors@) =~= before + key_problems(
                label@,
                path@,
                fact,
                keys.take(i as int + 1),
            ));
        }
        i += 1;
    }
    assert(keys.take(i as int) =~= keys);
}

fn check_fact(errors: &mut Vec<ConfigError>, label: &str, name: &String, section: &FactSection)
    ensures
        complaints(final(errors)@) == complaints(old(errors)@) + fact_problems(
            label@,
            name@,
            section@,
        ),
{
    let ghost before = complaints(errors@);
    let path = joined_path("facts.", name.as_str());
    match FactId::from_name(name.as_str()) {
        None => {
            push_complaint(
                errors,
                label,
                path,
                ErrorKind::UnknownFact { name: name.clone() },
            );
            assert(complaints(errors@) =~= before + fact_problems(label@, name@, section@));
        },
        Some(fact) => {
            check_keys(errors, label, path.as_str(), fact, section);
            let place = joined_path(path.as_str(), ".idle_window");
            check_duration(errors, label, place, &section.idle_window);
            let place = joined_path(path.as_str(), ".window");
            check_duration(errors, label, place, &section.window);
            assert(complaints(errors@) =~= before + fact_problems(label@, name@, section@));
        },
    }
}

fn check_block(
    errors: &mut Vec<ConfigError>,
    label: &str,
    kind: BlockKind,
    name: &String,
    section: &BlockSection,
)
    ensures
        complaints(final(errors)@) == complaints(old(errors)@) + block_problems(
            label@,
            kind,
            name@,
            section@,
        ),
{
    let ghost before = complaints(errors@);
    let path = dotted(kind.name(), name.as_str());
    if Condition::from_name(name.as_str()).is_none() {
        push_complaint(
            errors,
            label,
            path.clone(),
            ErrorKind::UnknownCondition { name: name.clone() },
        );
    }
    assert(complaints(errors@) =~= before + condition_problems(label@, kind, name@));
    match &section.clock {
        Some(raw) => {
            if Clock::from_name(raw.as_str()).is_none() {
                let place = joined_path(path.as_str(), ".clock");
                push_complaint(
                    errors,
                    label,
                    place,
                    ErrorKind::UnknownClock { name: raw.clone() },
                );
            }
        },
        None => {},
    }
    assert(complaints(errors@) =~= before + (condition_problems(label@, kind, name@)
        + clock_problems(label@, kind, name@, section@.clock)));
    let ghost p2 = condition_problems(label@, kind, name@) + clock_problems(
        label@,
        kind,
        name@,
        section@.clock,
    );
    let place = dotted(path.as_str(), Action::ScreenOff.name());
    let ghost t = timeout_problems(label@, place@, section@.screen_off);
    check_timeout(errors, label, place, section.timeout_key(Action::ScreenOff));
    proof {
        lemma_regroup(before, p2, t);
    }
    let ghost p3 = p2 + t;
    let place = dotted(path.as_str(), Action::Suspend.name());
    let ghost t = timeout_problems(label@, place@, section@.suspend);
    check_timeout(errors, label, place, section.timeout_key(Action::Suspend));
    proof {
        lemma_regroup(before, p3, t);
    }
    let ghost p4 = p3 + t;
    let place = dotted(path.as_str(), Action::Hibernate.name());
    let ghost t = timeout_problems(label@, place@, section@.hibernate);
    check_timeout(errors, label, place, section.timeout_key(Action::Hibernate));
    proof {
        lemma_regroup(before, p4, t);
    }
    let ghost p5 = p4 + t;
    let place = dotted(path.as_str(), Action::PowerOff.name());
    let ghost t = timeout_problems(label@, place@, section@.poweroff);
    check_timeout(errors, label, place, section.timeout_key(Action::PowerOff));
    proof {
        lemma_regroup(before, p5, t);
    }
}

proof fn lemma_regroup<A>(a: Seq<A>, b: Seq<A>, c: Seq<A>)
    ensures
        (a + b) + c == a + (b + c),
{
    assert((a + b) + c =~= a + (b + c));
}

fn check_blocks(
    errors: &mut Vec<ConfigError>,
    label: &str,
    kind: BlockKind,
    sections: &NameMap<BlockSection>,
)
    ensures
        complaints(final(errors)@) == complaints(old(errors)@) + blocks_problems(
            label@,
            kind,
            block_tables(sections@),
            in_order(block_tables(sections@).dom()),
        ),
{
    let ghost before = complaints(errors@);
    let ghost tables = block_tables(sections@);
    let ghost names = in_order(tables.dom());
    assert(tables.dom() =~= sections@.dom());
    let len: usize = sections.len();
    let mut i: usize = 0;
    assert(before + blocks_problems(label@, kind, tables, names.take(0)) =~= before);
    while i < len
        invariant
            i <= len,
            len == names.len(),
            names == in_order(sections@.dom()),
            tables == block_tables(sections@),
            complaints(errors@) == before + blocks_problems(
                label@,
                kind,
                tables,
                names.take(i as int),
            ),
        decreases len - i,
    {
        let name = sections.name_at(i);
        let section = sections.value_at(i);
        check_block(errors, label, kind, name, section);
        assert(names.take(i as int + 1).drop_last() =~= names.take(i as int));
        assert(tables[name@] == section@);
        assert(complaints(errors@) =~= before + blocks_problems(
            label@,
            kind,
            tables,
            names.take(i as int + 1),
        ));
        i += 1;
    }
    assert(names.take(i as int) =~= names);
}

/// Checks one file on its own.
///
/// A file is checked before it is merged, so that the file with the mistake is the one that is
/// dropped.
pub fn validate(file: &ConfigFile, label: &str) -> (r: Vec<ConfigError>)
    ensures
        complaints(r@) == file_problems(label@, file@),
{
    let mut errors: Vec<ConfigError> = Vec::new();
    assert(complaints(errors@) =~= Seq::<Complaint>::empty());
    let min_idle = match &file.general {
        Some(general) => general.min_idle.clone(),
        None => None,
    };
    check_duration(&mut errors, label, "general.min_idle".to_owned(), &min_idle);
    let ghost general = duration_problems(label@, "general.min_idle"@, file@.min_idle);
    assert(complaints(errors@) =~= general);
    let ghost tables = fact_tables(file.facts@);
    let ghost names = in_order(tables.dom());
    assert(tables.dom() =~= file.facts@.dom());
    let len: usize = file.facts.len();
    let mut i: usize = 0;
    assert(general + facts_problems(label@, tables, names.take(0)) =~= general);
    while i < len
        invariant
            i <= len,
            len == names.len(),
            names == in_order(file.facts@.dom()),
            tables == fact_tables(file.facts@),
            complaints(errors@) == general + facts_problems(label@, tables, names.take(i as int)),
        decreases len - i,
    {
        let name = file.facts.name_at(i);
        let section = file.facts.value_at(i);
        check_fact(&mut errors, label, name, section);
        assert(names.take(i as int + 1).drop_last() =~= names.take(i as int));
        assert(tables[name@] == section@);
        assert(complaints(errors@) =~= general + facts_problems(
            label@,
            tables,
            names.take(i as int + 1),
        ));
        i += 1;
    }
    assert(names.take(i as int) =~= names);
    check_blocks(&mut errors, label, BlockKind::While, &file.while_blocks);
    check_blocks(&mut errors, label, BlockKind::When, &file.when);
    errors
}

// ---- building -------------------------------------------------------------------------

/// The timeout of an action that is written, where it can be read.
pub open spec fn readable(written: Option<Written>) -> Option<Timeout> {
    match written {
        Some(w) => match written_timeout(w) {
            Ok(timeout) => Some(timeout),
            Err(_) => None,
        },
        None => None,
    }
}

/// The block that a table makes.
pub open spec fn built_block(kind: BlockKind, name: Seq<char>, keys: BlockKeys) -> Block {
    Block {
        id: BlockId { kind, condition: Condition::named(name)->Some_0 },
        clock: match keys.clock {
            Some(raw) => Clock::named(raw)->Some_0,
            None => Clock::HumanInput,
        },
        enabled: match keys.enabled {
            Some(flag) => flag,
            None => true,
        },
        timeouts: Timeouts {
            screen_off: readable(keys.screen_off),
            suspend: readable(keys.suspend),
            hibernate: readable(keys.hibernate),
            poweroff: readable(keys.poweroff),
        },
    }
}

/// Whether a block takes part, by its table.
pub open spec fn block_on(keys: BlockKeys) -> bool {
    match keys.enabled {
        Some(flag) => flag,
        None => true,
    }
}

/// The message about a block that sets no timeout.
pub open spec fn idle_block_text() -> Seq<char> {
    "block sets no timeout for any action and therefore does nothing"@
}

/// The message about a ceiling.
pub open spec fn ceiling_text() -> Seq<char> {
    "[when] blocks are ceilings: they force an action by their deadline and override every floor, including `never`, the human_active floor, the doubt floor of an unreadable detector and the configuration-fault floor. Confirm this is intended."@
}

/// What to look at twice in a block: that it does nothing, and that it is a ceiling.
pub open spec fn block_notices(
    label: Seq<char>,
    kind: BlockKind,
    name: Seq<char>,
    keys: BlockKeys,
) -> Seq<Notice> {
    let path = block_path(kind, name);
    let idle = if block_on(keys) && keys.screen_off is None && keys.suspend is None
        && keys.hibernate is None && keys.poweroff is None {
        seq![Notice { source: label, location: path, message: idle_block_text() }]
    } else {
        Seq::empty()
    };
    let ceiling = if block_on(keys) && kind == BlockKind::When {
        seq![Notice { source: label, location: path, message: ceiling_text() }]
    } else {
        Seq::empty()
    };
    idle + ceiling
}

fn push_notice(warnings: &mut Vec<Warning>, source: &str, location: String, message: String)
    ensures
        notices(final(warnings)@) == notices(old(warnings)@).push(
            (Notice { source: source@, location: location@, message: message@ }),
        ),
{
    let warning = Warning { source: source.to_owned(), location, message };
    assert(notices(warnings@.push(warning)) =~= notices(warnings@).push(warning@));
    warnings.push(warning);
}

/// Builds the timeout of an action.
fn build_timeout(section: &BlockSection, action: Action, label: &str, path: &str) -> (r: Result<
    Option<Timeout>,
    ConfigError,
>)
    ensures
        match r {
            Ok(timeout) => {
                &&& timeout == readable(section@.of(action))
                &&& timeout_problems(
                    label@,
                    path@ + "."@ + action.text(),
                    section@.of(action),
                ).len() == 0
                &&& timeout is None <==> section@.of(action) is None
            },
            Err(error) => timeout_problems(
                label@,
                path@ + "."@ + action.text(),
                section@.of(action),
            ) == seq![error@],
        },
{
    match section.timeout_key(action) {
        None => Ok(None),
        Some(raw) => match raw.parse() {
            Ok(timeout) => Ok(Some(timeout)),
            Err(reason) => Err(
                ConfigError {
                    source: label.to_owned(),
                    location: dotted(path, action.name()),
                    kind: ErrorKind::BadTimeout { value: raw.as_written(), reason },
                },
            ),
        },
    }
}

/// Builds a block from its table, or says what is wrong with it.
pub fn build_block(
    kind: BlockKind,
    name: &str,
    section: &BlockSection,
    label: &str,
    warnings: &mut Vec<Warning>,
) -> (r: Result<Block, ConfigError>)
    ensures
        match r {
            Ok(block) => {
                &&& block_problems(label@, kind, name@, section@).len() == 0
                &&& block == built_block(kind, name@, section@)
                &&& notices(final(warnings)@) == notices(old(warnings)@) + block_notices(
                    label@,
                    kind,
                    name@,
                    section@,
                )
            },
            Err(error) => {
                &&& block_problems(label@, kind, name@, section@).len() > 0
                &&& error@ == block_problems(label@, kind, name@, section@)[0]
                &&& final(warnings)@ == old(warnings)@
            },
        },
{
    let ghost before = notices(warnings@);
    let path = dotted(kind.name(), name);
    let condition = match Condition::from_name(name) {
        Some(condition) => condition,
        None => return Err(
            ConfigError {
                source: label.to_owned(),
                location: path,
                kind: ErrorKind::UnknownCondition { name: name.to_owned() },
            },
        ),
    };
    let clock = match &section.clock {
        None => Clock::HumanInput,
        Some(raw) => match Clock::from_name(raw.as_str()) {
            Some(clock) => clock,
            None => {
                let location = joined_path(path.as_str(), ".clock");
                return Err(
                    ConfigError {
                        source: label.to_owned(),
                        location,
                        kind: ErrorKind::UnknownClock { name: raw.clone() },
                    },
                )
            },
        },
    };
    let screen_off = match build_timeout(section, Action::ScreenOff, label, path.as_str()) {
        Ok(timeout) => timeout,
        Err(error) => return Err(error),
    };
    let suspend = match build_timeout(section, Action::Suspend, label, path.as_str()) {
        Ok(timeout) => timeout,
        Err(error) => return Err(error),
    };
    let hibernate = match build_timeout(section, Action::Hibernate, label, path.as_str()) {
        Ok(timeout) => timeout,
        Err(error) => return Err(error),
    };
    let poweroff = match build_timeout(section, Action::PowerOff, label, path.as_str()) {
        Ok(timeout) => timeout,
        Err(error) => return Err(error),
    };
    let timeouts = Timeouts { screen_off, suspend, hibernate, poweroff };
    let enabled = section.enabled.unwrap_or(true);
    let idle = timeouts.is_empty() && enabled;
    proof {
        assert(timeouts.of(Action::ScreenOff) == screen_off);
        assert(timeouts.of(Action::Suspend) == suspend);
        assert(timeouts.of(Action::Hibernate) == hibernate);
        assert(timeouts.of(Action::PowerOff) == poweroff);
        assert((forall|a: Action| #[trigger] timeouts.of(a) is None) <==> (screen_off is None
            && suspend is None && hibernate is None && poweroff is None));
    }
    if idle {
        push_notice(
            warnings,
            label,
            path.clone(),
            "block sets no timeout for any action and therefore does nothing".to_owned(),
        );
    }
    if kind == BlockKind::When && enabled {
        push_notice(
            warnings,
            label,
            path.clone(),
            "[when] blocks are ceilings: they force an action by their deadline and override every floor, including `never`, the human_active floor, the doubt floor of an unreadable detector and the configuration-fault floor. Confirm this is intended.".to_owned(),
        );
    }
    assert(notices(warnings@) =~= before + block_notices(label@, kind, name@, section@));
    Ok(Block { id: BlockId::new(kind, condition), clock, enabled, timeouts })
}

/// The span that is written, where it can be read.
pub open spec fn readable_span(written: Option<Written>) -> Option<Duration> {
    match written {
        Some(w) => match written_duration(w) {
            Ok(d) => Some(d),
            Err(_) => None,
        },
        None => None,
    }
}

/// Whether the table of a fact asks for it to be read. A local service is asked for by its address.
pub open spec fn asked_for(fact: FactId, keys: FactKeys) -> bool {
    match keys.enabled {
        Some(flag) => flag,
        None => if fact == FactId::LocalServiceBusy {
            keys.counters_url is Some
        } else {
            true
        },
    }
}

/// Whether a local service is asked for without an address, and so could never answer.
pub open spec fn unanswerable(fact: FactId, keys: FactKeys) -> bool {
    fact == FactId::LocalServiceBusy && asked_for(fact, keys) && keys.counters_url is None
}

/// Whether the settings of a fact are those that its table makes.
pub open spec fn made_by(settings: FactSettings, fact: FactId, keys: FactKeys) -> bool {
    &&& settings.enabled == (asked_for(fact, keys) && !unanswerable(fact, keys))
    &&& text_view(settings.counters_url) == keys.counters_url
    &&& settings.idle_window == readable_span(keys.idle_window)
    &&& text_view(settings.steam_root) == keys.steam_root
    &&& settings.window == readable_span(keys.window)
}

/// The message about a local service without an address.
pub open spec fn unanswerable_text() -> Seq<char> {
    "local_service_busy was enabled without counters_url, so it has no way to answer; leaving it disabled. Set counters_url to enable it."@
}

/// The message about a fact that is switched off.
pub open spec fn fact_off_text() -> Seq<char> {
    "fact is disabled: its detector will not run, it reports unavailable, and doubt about it no longer vetoes"@
}

/// What to look at twice in the table of a fact.
pub open spec fn fact_notices(label: Seq<char>, name: Seq<char>, keys: FactKeys) -> Seq<Notice> {
    match FactId::named(name) {
        None => Seq::empty(),
        Some(fact) => {
            let lonely = if unanswerable(fact, keys) {
                seq![
                    Notice {
                        source: label,
                        location: "facts."@ + name + ".enabled"@,
                        message: unanswerable_text(),
                    },
                ]
            } else {
                Seq::empty()
            };
            let off = if asked_for(fact, keys) && !unanswerable(fact, keys) {
                Seq::empty()
            } else {
                seq![
                    Notice { source: label, location: "facts."@ + name, message: fact_off_text() },
                ]
            };
            lonely + off
        },
    }
}

/// The label of the layer that last mentioned a name.
pub open spec fn label_at(origin: Map<Seq<char>, Seq<char>>, name: Seq<char>) -> Seq<char> {
    if origin.contains_key(name) {
        origin[name]
    } else {
        "<merged>"@
    }
}

/// What to look at twice in the tables of facts, in the order of the names.
pub open spec fn facts_notices(
    origin: Map<Seq<char>, Seq<char>>,
    tables: Map<Seq<char>, FactKeys>,
    names: Seq<Seq<char>>,
) -> Seq<Notice>
    decreases names.len(),
{
    if names.len() == 0 {
        Seq::empty()
    } else {
        facts_notices(origin, tables, names.drop_last()) + fact_notices(
            label_at(origin, names.last()),
            names.last(),
            tables[names.last()],
        )
    }
}

/// What some labels hold, by name.
pub open spec fn label_views(labels: Map<Seq<char>, String>) -> Map<Seq<char>, Seq<char>> {
    Map::new(|n: Seq<char>| labels.contains_key(n), |n: Seq<char>| labels[n]@)
}

fn label_of(origin: &NameMap<String>, name: &str) -> (r: String)
    ensures
        r@ == label_at(label_views(origin@), name@),
{
    match origin.get(name) {
        Some(label) => label.clone(),
        None => "<merged>".to_owned(),
    }
}

fn span_of(raw: &Option<TimeoutValue>) -> (r: Option<Duration>)
    ensures
        r == readable_span(value_view(*raw)),
{
    match raw {
        Some(value) => match value.parse_finite() {
            Ok(d) => Some(d),
            Err(_) => None,
        },
        None => None,
    }
}

fn build_fact(
    fact: FactId,
    name: &str,
    section: &FactSection,
    label: String,
    warnings: &mut Vec<Warning>,
) -> (r: FactSettings)
    requires
        FactId::named(name@) == Some(fact),
    ensures
        made_by(r, fact, section@),
        notices(final(warnings)@) == notices(old(warnings)@) + fact_notices(
            label@,
            name@,
            section@,
        ),
{
    let ghost before = notices(warnings@);
    let copy = section.clone();
    let mut enabled = match section.enabled {
        Some(flag) => flag,
        None => if fact == FactId::LocalServiceBusy {
            section.counters_url.is_some()
        } else {
            true
        },
    };
    if fact == FactId::LocalServiceBusy && enabled && section.counters_url.is_none() {
        enabled = false;
        let path = joined_path("facts.", name);
        let place = joined_path(path.as_str(), ".enabled");
        push_notice(
            warnings,
            label.as_str(),
            place,
            "local_service_busy was enabled without counters_url, so it has no way to answer; leaving it disabled. Set counters_url to enable it.".to_owned(),
        );
    }
    if !enabled {
        let place = joined_path("facts.", name);
        push_notice(
            warnings,
            label.as_str(),
            place,
            "fact is disabled: its detector will not run, it reports unavailable, and doubt about it no longer vetoes".to_owned(),
        );
    }
    assert(notices(warnings@) =~= before + fact_notices(label@, name@, section@));
    FactSettings {
        enabled,
        counters_url: copy.counters_url,
        idle_window: span_of(&section.idle_window),
        steam_root: copy.steam_root,
        window: span_of(&section.window),
    }
}

/// Whether the settings of every fact are those that the tables make, and those of a fact without
/// a table the shipped ones.
pub open spec fn facts_made_by(
    facts: Map<FactId, FactSettings>,
    tables: Map<Seq<char>, FactKeys>,
) -> bool {
    forall|f: FactId| #[trigger] fact_made_by(facts, tables, f)
}

/// Whether the settings of a fact are those that its table makes, or the shipped ones where it has
/// no table.
pub open spec fn fact_made_by(
    facts: Map<FactId, FactSettings>,
    tables: Map<Seq<char>, FactKeys>,
    f: FactId,
) -> bool {
    &&& facts.contains_key(f)
    &&& if tables.contains_key(f.text()) {
        made_by(facts[f], f, tables[f.text()])
    } else {
        facts[f] == default_settings(f)
    }
}

/// Whether the settings of a fact are those that its table makes, if it is among the first ones.
spec fn fact_so_far(
    facts: Map<FactId, FactSettings>,
    tables: Map<Seq<char>, FactKeys>,
    names: Seq<Seq<char>>,
    f: FactId,
) -> bool {
    &&& facts.contains_key(f)
    &&& if names.contains(f.text()) {
        made_by(facts[f], f, tables[f.text()])
    } else {
        facts[f] == default_settings(f)
    }
}

spec fn facts_so_far(
    facts: Map<FactId, FactSettings>,
    tables: Map<Seq<char>, FactKeys>,
    names: Seq<Seq<char>>,
) -> bool {
    forall|f: FactId| #[trigger] fact_so_far(facts, tables, names, f)
}

/// Builds the settings of every fact.
pub fn build_facts(
    merged: &ConfigFile,
    fact_origin: &NameMap<String>,
    warnings: &mut Vec<Warning>,
) -> (r: FactMap<FactSettings>)
    ensures
        facts_made_by(r@, merged@.facts),
        notices(final(warnings)@) == notices(old(warnings)@) + facts_notices(
            label_views(fact_origin@),
            merged@.facts,
            in_order(merged@.facts.dom()),
        ),
        crate::names::lists(in_order(merged@.facts.dom()), merged@.facts.dom()),
{
    let empty = Policy::empty();
    let ghost shipped = empty.facts@;
    assert forall|f: FactId|
        #![trigger shipped[f]]
        shipped.contains_key(f) && shipped[f] == default_settings(f) by {
        assert(empty.settings(f) == default_settings(f));
    }
    let mut facts = empty.facts;
    let ghost before = notices(warnings@);
    let ghost origin = label_views(fact_origin@);
    let ghost tables = fact_tables(merged.facts@);
    let ghost names = in_order(tables.dom());
    assert forall|f: FactId| #[trigger] fact_so_far(facts@, tables, names.take(0), f) by {
        assert(shipped[f] == facts@[f]);
    }
    assert(tables.dom() =~= merged.facts@.dom());
    let len: usize = merged.facts.len();
    let mut i: usize = 0;
    assert(before + facts_notices(origin, tables, names.take(0)) =~= before);
    while i < len
        invariant
            i <= len,
            len == names.len(),
            names == in_order(merged.facts@.dom()),
            crate::names::lists(names, merged.facts@.dom()),
            tables == fact_tables(merged.facts@),
            origin == label_views(fact_origin@),
            facts_so_far(facts@, tables, names.take(i as int)),
            notices(warnings@) == before + facts_notices(origin, tables, names.take(i as int)),
        decreases len - i,
    {
        let name = merged.facts.name_at(i);
        let section = merged.facts.value_at(i);
        let ghost done = names.take(i as int);
        let ghost next = names.take(i as int + 1);
        let ghost so_far = facts_notices(origin, tables, done);
        proof {
            assert(next.drop_last() =~= done);
            assert(next =~= done.push(name@));
            assert(tables[name@] == section@);
            assert forall|n: Seq<char>| next.contains(n) <==> done.contains(n) || n == name@ by {
                crate::names::lemma_pushed(done, name@, n);
            }
        }
        match FactId::from_name(name.as_str()) {
            None => {
                assert(before + (so_far + Seq::<Notice>::empty()) =~= before + so_far);
                assert forall|f: FactId| #[trigger] fact_so_far(facts@, tables, next, f) by {
                    assert(fact_so_far(facts@, tables, done, f));
                    assert(f.text() != name@);
                    assert(next.contains(f.text()) <==> done.contains(f.text()));
                }
            },
            Some(fact) => {
                let label = label_of(fact_origin, name.as_str());
                proof {
                    let f = choose|f: FactId| #[trigger] f.text() == name@;
                    crate::fact::lemma_factid_named(f);
                    assert(fact.text() == name@);
                }
                let settings = build_fact(fact, name.as_str(), section, label, warnings);
                assert((before + so_far) + fact_notices(label_at(origin, name@), name@, section@)
                    =~= before + facts_notices(origin, tables, next));
                let ghost prior = facts@;
                facts.insert(fact, settings);
                assert forall|f: FactId| #[trigger] fact_so_far(facts@, tables, next, f) by {
                    assert(fact_so_far(prior, tables, done, f));
                    assert(next.contains(f.text()) <==> done.contains(f.text()) || f.text() == name@);
                    if f != fact && f.text() == name@ {
                        crate::fact::fact_names_are_distinct(f, fact);
                    }
                }
            },
        }
        i += 1;
    }
    proof {
        assert(names.take(i as int) =~= names);
        assert forall|f: FactId| #[trigger] fact_made_by(facts@, tables, f) by {
            assert(fact_so_far(facts@, tables, names, f));
            assert(merged.facts@.dom().contains(f.text()) <==> names.contains(f.text()));
        }
    }
    facts
}

// ---- layers ---------------------------------------------------------------------------

/// A layer, once it has been read.
#[derive(Debug)]
pub struct Layer {
    /// What it is called in messages.
    pub label: String,
    /// What it says, or why it cannot be read.
    pub parsed: Result<ConfigFile, ConfigError>,
}

/// A layer, as a value of the model.
#[verifier::ext_equal]
pub struct LayerKeys {
    /// What it is called in messages.
    pub label: Seq<char>,
    /// What it says, or why it cannot be read.
    pub parsed: Result<FileKeys, Complaint>,
}

impl View for Layer {
    type V = LayerKeys;

    open spec fn view(&self) -> LayerKeys {
        LayerKeys {
            label: self.label@,
            parsed: match self.parsed {
                Ok(file) => Ok(file@),
                Err(error) => Err(error@),
            },
        }
    }
}

/// What the layers of a list are, in order.
pub open spec fn layer_views(layers: Seq<Layer>) -> Seq<LayerKeys> {
    layers.map_values(|l: Layer| l@)
}

/// The complaints about a layer.
pub open spec fn layer_problems(layer: LayerKeys) -> Seq<Complaint> {
    match layer.parsed {
        Ok(file) => file_problems(layer.label, file),
        Err(complaint) => seq![complaint],
    }
}

/// Whether a layer is applied. One with anything wrong in it is dropped as a whole.
pub open spec fn kept(layer: LayerKeys) -> bool {
    layer_problems(layer).len() == 0
}

/// The complaints about all layers, in order.
pub open spec fn all_problems(layers: Seq<LayerKeys>) -> Seq<Complaint>
    decreases layers.len(),
{
    if layers.len() == 0 {
        Seq::empty()
    } else {
        all_problems(layers.drop_last()) + layer_problems(layers.last())
    }
}

/// What the applied layers say together: each over those before it.
pub open spec fn merged(layers: Seq<LayerKeys>) -> FileKeys
    decreases layers.len(),
{
    if layers.len() == 0 {
        no_file_keys()
    } else if kept(layers.last()) {
        file_over(merged(layers.drop_last()), layers.last().parsed->Ok_0)
    } else {
        merged(layers.drop_last())
    }
}

/// The labels of the applied layers, in order.
pub open spec fn kept_labels(layers: Seq<LayerKeys>) -> Seq<Seq<char>>
    decreases layers.len(),
{
    if layers.len() == 0 {
        Seq::empty()
    } else if kept(layers.last()) {
        kept_labels(layers.drop_last()).push(layers.last().label)
    } else {
        kept_labels(layers.drop_last())
    }
}

/// Labels by name, with one more layer that mentions some names.
pub open spec fn stamped(
    origin: Map<Seq<char>, Seq<char>>,
    names: Set<Seq<char>>,
    label: Seq<char>,
) -> Map<Seq<char>, Seq<char>> {
    Map::new(
        |n: Seq<char>| origin.contains_key(n) || names.contains(n),
        |n: Seq<char>|
            if names.contains(n) {
                label
            } else {
                origin[n]
            },
    )
}

/// The names that a file has tables of blocks of a kind for.
pub open spec fn block_names(file: FileKeys, kind: BlockKind) -> Set<Seq<char>> {
    match kind {
        BlockKind::While => file.while_blocks.dom(),
        BlockKind::When => file.when.dom(),
    }
}

/// The label of the applied layer that last mentioned each block of a kind.
pub open spec fn block_origin(layers: Seq<LayerKeys>, kind: BlockKind) -> Map<Seq<char>, Seq<char>>
    decreases layers.len(),
{
    if layers.len() == 0 {
        Map::empty()
    } else if kept(layers.last()) {
        stamped(
            block_origin(layers.drop_last(), kind),
            block_names(layers.last().parsed->Ok_0, kind),
            layers.last().label,
        )
    } else {
        block_origin(layers.drop_last(), kind)
    }
}

/// The label of the applied layer that last mentioned each fact.
pub open spec fn fact_origins(layers: Seq<LayerKeys>) -> Map<Seq<char>, Seq<char>>
    decreases layers.len(),
{
    if layers.len() == 0 {
        Map::empty()
    } else if kept(layers.last()) {
        stamped(
            fact_origins(layers.drop_last()),
            layers.last().parsed->Ok_0.facts.dom(),
            layers.last().label,
        )
    } else {
        fact_origins(layers.drop_last())
    }
}

/// The blocks that tables of a kind make, in the order of the names.
pub open spec fn built_blocks(
    kind: BlockKind,
    tables: Map<Seq<char>, BlockKeys>,
    names: Seq<Seq<char>>,
) -> Seq<Block>
    decreases names.len(),
{
    if names.len() == 0 {
        Seq::empty()
    } else {
        built_blocks(kind, tables, names.drop_last()).push(
            built_block(kind, names.last(), tables[names.last()]),
        )
    }
}

/// What to look at twice in the blocks of a kind, in the order of the names.
pub open spec fn blocks_notices(
    kind: BlockKind,
    origin: Map<Seq<char>, Seq<char>>,
    tables: Map<Seq<char>, BlockKeys>,
    names: Seq<Seq<char>>,
) -> Seq<Notice>
    decreases names.len(),
{
    if names.len() == 0 {
        Seq::empty()
    } else {
        blocks_notices(kind, origin, tables, names.drop_last()) + block_notices(
            label_at(origin, names.last()),
            kind,
            names.last(),
            tables[names.last()],
        )
    }
}

/// The block that darkens the panel where the file that the package ships cannot be used. It says
/// nothing of any sleep.
pub open spec fn fallback_block() -> Block {
    Block {
        id: BlockId { kind: BlockKind::While, condition: Condition::Always },
        clock: Clock::HumanInput,
        enabled: true,
        timeouts: Timeouts {
            screen_off: Some(Timeout::After(crate::time::seconds(900))),
            suspend: None,
            hibernate: None,
            poweroff: None,
        },
    }
}

/// Whether a block holds the panel lit for some time and then lets it darken.
pub open spec fn darkens(block: Block) -> bool {
    block.enabled && block.id.kind == BlockKind::While && block.timeouts.screen_off is Some
}

/// Whether some block lets the panel darken.
pub open spec fn some_darkens(blocks: Seq<Block>) -> bool {
    exists|i: int| 0 <= i < blocks.len() && darkens(#[trigger] blocks[i])
}

/// The blocks that the layers make.
pub open spec fn layered_blocks(layers: Seq<LayerKeys>) -> Seq<Block> {
    let file = merged(layers);
    built_blocks(BlockKind::While, file.while_blocks, in_order(file.while_blocks.dom()))
        + built_blocks(BlockKind::When, file.when, in_order(file.when.dom()))
}

/// Whether the block that darkens the panel has to be added: the first layer was dropped, and no
/// other lets the panel darken.
pub open spec fn fallback_needed(layers: Seq<LayerKeys>) -> bool {
    layers.len() > 0 && !kept(layers[0]) && !some_darkens(layered_blocks(layers))
}

/// The message about the block that was added.
pub open spec fn fallback_text() -> Seq<char> {
    "the vendor layer was dropped and no other layer sets screen_off; applying the compiled-in fallback of "@
        + super::timeout::formatted(Timeout::After(crate::time::seconds(900)))
        + " so a broken package cannot leave a panel lit"@
}

/// What to look at twice in what the layers make.
pub open spec fn load_notices(layers: Seq<LayerKeys>) -> Seq<Notice> {
    let file = merged(layers);
    let blocks = blocks_notices(
        BlockKind::While,
        block_origin(layers, BlockKind::While),
        file.while_blocks,
        in_order(file.while_blocks.dom()),
    ) + blocks_notices(
        BlockKind::When,
        block_origin(layers, BlockKind::When),
        file.when,
        in_order(file.when.dom()),
    );
    let all = blocks + facts_notices(fact_origins(layers), file.facts, in_order(file.facts.dom()));
    if fallback_needed(layers) {
        all.push(
            Notice {
                source: layers[0].label,
                location: "while.always.screen_off"@,
                message: fallback_text(),
            },
        )
    } else {
        all
    }
}

/// What was loaded.
#[derive(Debug)]
pub struct Loaded {
    /// The policy, with what was wrong.
    pub policy: Policy,
    /// The labels of the layers that were applied.
    pub layers: Vec<String>,
    /// What to look at twice.
    pub warnings: Vec<Warning>,
}

/// Whether faults of a policy record errors, one for one.
pub open spec fn all_recorded(faults: Seq<ConfigFault>, problems: Seq<Complaint>) -> bool {
    &&& faults.len() == problems.len()
    &&& forall|i: int| 0 <= i < faults.len() ==> records(#[trigger] faults[i], problems[i])
}

/// How long nobody must touch the machine, by what the layers say together.
pub open spec fn min_idle_of(file: FileKeys) -> Duration {
    match readable_span(file.min_idle) {
        Some(d) => d,
        None => crate::time::seconds(300),
    }
}

/// Whether something is what the layers make.
pub open spec fn loads(loaded: Loaded, errors: Seq<ConfigError>, layers: Seq<LayerKeys>) -> bool {
    let file = merged(layers);
    &&& listable(file)
    &&& file_fine(file)
    &&& complaints(errors) == all_problems(layers)
    &&& all_recorded(loaded.policy.faults@, all_problems(layers))
    &&& loaded.policy.blocks@ == (if fallback_needed(layers) {
        layered_blocks(layers).push(fallback_block())
    } else {
        layered_blocks(layers)
    })
    &&& loaded.policy.min_idle == min_idle_of(file)
    &&& facts_made_by(loaded.policy.facts@, file.facts)
    &&& crate::text::views(loaded.layers@) == kept_labels(layers)
    &&& notices(loaded.warnings@) == load_notices(layers)
}

// ---- what is right on its own stays right when merged ----------------------------------

/// Whether nothing is wrong with the table of a block.
pub open spec fn block_fine(name: Seq<char>, keys: BlockKeys) -> bool {
    &&& Condition::named(name) is Some
    &&& keys.clock matches Some(raw) ==> Clock::named(raw) is Some
    &&& forall|action: Action|
        (#[trigger] keys.of(action)) matches Some(w) ==> written_timeout(w) is Ok
}

/// Whether nothing is wrong with the tables of blocks.
pub open spec fn tables_fine(tables: Map<Seq<char>, BlockKeys>) -> bool {
    forall|n: Seq<char>| #[trigger] tables.contains_key(n) ==> block_fine(n, tables[n])
}

/// Whether nothing is wrong with what makes blocks and the idle time.
pub open spec fn file_fine(file: FileKeys) -> bool {
    &&& file.min_idle matches Some(w) ==> written_duration(w) is Ok
    &&& tables_fine(file.while_blocks)
    &&& tables_fine(file.when)
}

pub proof fn lemma_block_fine(label: Seq<char>, kind: BlockKind, name: Seq<char>, keys: BlockKeys)
    ensures
        block_problems(label, kind, name, keys).len() == 0 <==> block_fine(name, keys),
{
    let a = condition_problems(label, kind, name);
    let b = clock_problems(label, kind, name, keys.clock);
    let c = timeout_problems(label, timeout_path(kind, name, Action::ScreenOff), keys.screen_off);
    let d = timeout_problems(label, timeout_path(kind, name, Action::Suspend), keys.suspend);
    let e = timeout_problems(label, timeout_path(kind, name, Action::Hibernate), keys.hibernate);
    let f = timeout_problems(label, timeout_path(kind, name, Action::PowerOff), keys.poweroff);
    assert(block_problems(label, kind, name, keys).len() == a.len() + b.len() + c.len() + d.len()
        + e.len() + f.len());
    assert(keys.of(Action::ScreenOff) == keys.screen_off);
    assert(keys.of(Action::Suspend) == keys.suspend);
    assert(keys.of(Action::Hibernate) == keys.hibernate);
    assert(keys.of(Action::PowerOff) == keys.poweroff);
}

proof fn lemma_tables_fine(
    label: Seq<char>,
    kind: BlockKind,
    tables: Map<Seq<char>, BlockKeys>,
    names: Seq<Seq<char>>,
)
    requires
        blocks_problems(label, kind, tables, names).len() == 0,
    ensures
        forall|i: int|
            #![trigger names[i]]
            0 <= i < names.len() ==> block_fine(names[i], tables[names[i]]),
    decreases names.len(),
{
    if names.len() > 0 {
        let shorter = names.drop_last();
        lemma_tables_fine(label, kind, tables, shorter);
        lemma_block_fine(label, kind, names.last(), tables[names.last()]);
        assert forall|i: int|
            #![trigger names[i]]
            0 <= i < names.len() implies block_fine(names[i], tables[names[i]]) by {
            if i < shorter.len() {
                assert(shorter[i] == names[i]);
            }
        }
    }
}

/// Whether the names of a file's tables can be listed in order, as those of every file that there
/// is can.
pub open spec fn listable(file: FileKeys) -> bool {
    &&& crate::names::lists(in_order(file.facts.dom()), file.facts.dom())
    &&& crate::names::lists(in_order(file.while_blocks.dom()), file.while_blocks.dom())
    &&& crate::names::lists(in_order(file.when.dom()), file.when.dom())
}

/// A file without a complaint is fine.
pub proof fn a_file_without_complaint_is_fine(label: Seq<char>, file: FileKeys)
    requires
        listable(file),
        file_problems(label, file).len() == 0,
    ensures
        file_fine(file),
{
    let whiles = in_order(file.while_blocks.dom());
    let whens = in_order(file.when.dom());
    lemma_tables_fine(label, BlockKind::While, file.while_blocks, whiles);
    lemma_tables_fine(label, BlockKind::When, file.when, whens);
    assert forall|n: Seq<char>| #[trigger] file.while_blocks.contains_key(n) implies block_fine(
        n,
        file.while_blocks[n],
    ) by {
        assert(file.while_blocks.dom().contains(n));
        assert(whiles.contains(n));
        let i = choose|i: int| 0 <= i < whiles.len() && whiles[i] == n;
        assert(whiles[i] == n);
    }
    assert forall|n: Seq<char>| #[trigger] file.when.contains_key(n) implies block_fine(
        n,
        file.when[n],
    ) by {
        assert(file.when.dom().contains(n));
        assert(whens.contains(n));
        let i = choose|i: int| 0 <= i < whens.len() && whens[i] == n;
        assert(whens[i] == n);
    }
}

proof fn lemma_tables_over_fine(a: Map<Seq<char>, BlockKeys>, b: Map<Seq<char>, BlockKeys>)
    requires
        tables_fine(a),
        tables_fine(b),
    ensures
        tables_fine(blocks_over(a, b)),
{
    let both = blocks_over(a, b);
    assert forall|n: Seq<char>| #[trigger] both.contains_key(n) implies block_fine(n, both[n]) by {
        if b.contains_key(n) {
            let earlier = super::section::block_keys_at(a, n);
            assert(block_fine(n, b[n]));
            assert(a.contains_key(n) ==> block_fine(n, a[n]));
            assert forall|action: Action| (#[trigger] both[n].of(action)) is Some implies written_timeout(
                both[n].of(action)->Some_0,
            ) is Ok by {
                assert(both[n].of(action) == over(earlier.of(action), b[n].of(action)));
                assert(b[n].of(action) matches Some(w) ==> written_timeout(w) is Ok);
                assert(earlier.of(action) matches Some(w) ==> written_timeout(w) is Ok);
            }
        } else {
            assert(a.contains_key(n));
        }
    }
}

/// Files that are fine stay fine when one is laid over the other. So a block that was checked in
/// its own file can always be built.
pub proof fn fine_files_merge_into_a_fine_file(earlier: FileKeys, later: FileKeys)
    requires
        file_fine(earlier),
        file_fine(later),
    ensures
        file_fine(file_over(earlier, later)),
{
    lemma_tables_over_fine(earlier.while_blocks, later.while_blocks);
    lemma_tables_over_fine(earlier.when, later.when);
}

// ---- loading --------------------------------------------------------------------------

/// Records the label of a layer for every name that it mentions.
fn stamp<V>(origin: &mut NameMap<String>, tables: &NameMap<V>, label: &str)
    ensures
        label_views(final(origin)@) == stamped(label_views(old(origin)@), tables@.dom(), label@),
        crate::names::lists(in_order(tables@.dom()), tables@.dom()),
{
    let ghost before = label_views(origin@);
    let ghost names = in_order(tables@.dom());
    let len: usize = tables.len();
    let mut i: usize = 0;
    while i < len
        invariant
            i <= len,
            len == names.len(),
            names == in_order(tables@.dom()),
            crate::names::lists(names, tables@.dom()),
            forall|n: Seq<char>| #[trigger]
                origin@.contains_key(n) <==> before.contains_key(n) || names.take(
                    i as int,
                ).contains(n),
            forall|n: Seq<char>| #[trigger]
                origin@.contains_key(n) ==> origin@[n]@ == (if names.take(i as int).contains(n) {
                    label@
                } else {
                    before[n]
                }),
        decreases len - i,
    {
        let name = tables.name_at(i);
        let ghost done = names.take(i as int);
        let ghost next = names.take(i as int + 1);
        origin.put(name.as_str(), label.to_owned());
        proof {
            assert(next =~= done.push(name@));
            assert forall|n: Seq<char>| next.contains(n) <==> done.contains(n) || n == name@ by {
                crate::names::lemma_pushed(done, name@, n);
            }
        }
        i += 1;
    }
    assert(names.take(i as int) =~= names);
    assert(label_views(origin@) =~= stamped(before, tables@.dom(), label@));
}

/// Builds the blocks of a kind. Every one of them was checked in its own file, so none is left out.
fn build_blocks(
    kind: BlockKind,
    sections: &NameMap<BlockSection>,
    origin: &NameMap<String>,
    blocks: &mut Vec<Block>,
    warnings: &mut Vec<Warning>,
)
    requires
        tables_fine(block_tables(sections@)),
    ensures
        ({
            let tables = block_tables(sections@);
            let names = in_order(tables.dom());
            &&& final(blocks)@ == old(blocks)@ + built_blocks(kind, tables, names)
            &&& notices(final(warnings)@) == notices(old(warnings)@) + blocks_notices(
                kind,
                label_views(origin@),
                tables,
                names,
            )
            &&& crate::names::lists(names, tables.dom())
        }),
{
    let ghost blocks_before = blocks@;
    let ghost notices_before = notices(warnings@);
    let ghost labels = label_views(origin@);
    let ghost tables = block_tables(sections@);
    let ghost names = in_order(tables.dom());
    assert(tables.dom() =~= sections@.dom());
    let len: usize = sections.len();
    let mut i: usize = 0;
    assert(blocks_before + built_blocks(kind, tables, names.take(0)) =~= blocks_before);
    assert(notices_before + blocks_notices(kind, labels, tables, names.take(0))
        =~= notices_before);
    while i < len
        invariant
            i <= len,
            len == names.len(),
            names == in_order(sections@.dom()),
            tables == block_tables(sections@),
            tables_fine(tables),
            labels == label_views(origin@),
            blocks@ == blocks_before + built_blocks(kind, tables, names.take(i as int)),
            notices(warnings@) == notices_before + blocks_notices(
                kind,
                labels,
                tables,
                names.take(i as int),
            ),
        decreases len - i,
    {
        let name = sections.name_at(i);
        let section = sections.value_at(i);
        let label = label_of(origin, name.as_str());
        let ghost next = names.take(i as int + 1);
        proof {
            assert(next.drop_last() =~= names.take(i as int));
            assert(tables.contains_key(name@) && tables[name@] == section@);
            lemma_block_fine(label@, kind, name@, section@);
        }
        match build_block(kind, name.as_str(), section, label.as_str(), warnings) {
            Ok(block) => {
                blocks.push(block);
                assert(blocks@ =~= blocks_before + built_blocks(kind, tables, next));
                proof {
                    lemma_regroup(
                        notices_before,
                        blocks_notices(kind, labels, tables, names.take(i as int)),
                        block_notices(label@, kind, name@, section@),
                    );
                }
            },
            Err(_) => {
                assert(false);
            },
        }
        i += 1;
    }
    assert(names.take(i as int) =~= names);
}

fn fallback_screen_off_block() -> (r: Block)
    ensures
        r == fallback_block(),
{
    Block {
        id: BlockId::new(BlockKind::While, Condition::Always),
        clock: Clock::HumanInput,
        enabled: true,
        timeouts: Timeouts {
            screen_off: Some(Timeout::After(Duration::from_secs(FALLBACK_SCREEN_OFF_SECS))),
            suspend: None,
            hibernate: None,
            poweroff: None,
        },
    }
}

fn any_darkens(blocks: &Vec<Block>) -> (r: bool)
    ensures
        r == some_darkens(blocks@),
{
    let mut i: usize = 0;
    while i < blocks.len()
        invariant
            i <= blocks@.len(),
            forall|j: int| 0 <= j < i ==> !darkens(#[trigger] blocks@[j]),
        decreases blocks@.len() - i,
    {
        let block = blocks[i];
        if block.enabled && block.id.kind == BlockKind::While && block.timeouts.screen_off.is_some() {
            assert(darkens(blocks@[i as int]));
            return true;
        }
        i += 1;
    }
    false
}

/// Appends errors to others.
fn extend(faults: &mut Vec<ConfigError>, errors: Vec<ConfigError>)
    ensures
        complaints(final(faults)@) == complaints(old(faults)@) + complaints(errors@),
{
    let mut errors = errors;
    let ghost before = complaints(faults@);
    let ghost more = complaints(errors@);
    faults.append(&mut errors);
    assert(complaints(faults@) =~= before + more);
}

fn record_faults(faults: &Vec<ConfigError>) -> (r: Vec<ConfigFault>)
    ensures
        all_recorded(r@, complaints(faults@)),
{
    let mut out: Vec<ConfigFault> = Vec::new();
    let mut i: usize = 0;
    while i < faults.len()
        invariant
            i <= faults@.len(),
            out@.len() == i,
            forall|j: int| 0 <= j < i ==> records(#[trigger] out@[j], complaints(faults@)[j]),
        decreases faults@.len() - i,
    {
        let fault = faults[i].as_fault();
        assert(complaints(faults@)[i as int] == faults@[i as int]@);
        out.push(fault);
        i += 1;
    }
    out
}

/// What the layers read so far have come to.
struct Merge {
    file: ConfigFile,
    layers: Vec<String>,
    faults: Vec<ConfigError>,
    while_origin: NameMap<String>,
    when_origin: NameMap<String>,
    fact_origin: NameMap<String>,
}

impl Merge {
    /// Whether this is what some layers have come to.
    spec fn of(self, layers: Seq<LayerKeys>) -> bool {
        &&& self.file@ == merged(layers)
        &&& file_fine(merged(layers))
        &&& crate::text::views(self.layers@) == kept_labels(layers)
        &&& complaints(self.faults@) == all_problems(layers)
        &&& label_views(self.while_origin@) == block_origin(layers, BlockKind::While)
        &&& label_views(self.when_origin@) == block_origin(layers, BlockKind::When)
        &&& label_views(self.fact_origin@) == fact_origins(layers)
    }

    fn new() -> (r: Self)
        ensures
            r.of(Seq::empty()),
    {
        let r = Merge {
            file: ConfigFile::new(),
            layers: Vec::new(),
            faults: Vec::new(),
            while_origin: NameMap::new(),
            when_origin: NameMap::new(),
            fact_origin: NameMap::new(),
        };
        proof {
            assert(crate::text::views(r.layers@) =~= Seq::empty());
            assert(complaints(r.faults@) =~= Seq::empty());
            assert(label_views(r.while_origin@) =~= Map::empty());
            assert(label_views(r.when_origin@) =~= Map::empty());
            assert(label_views(r.fact_origin@) =~= Map::empty());
        }
        r
    }

    /// Takes a layer in, or drops it. Gives back whether it was taken in.
    fn take_in(&mut self, layer: Layer, Ghost(before): Ghost<Seq<LayerKeys>>) -> (r: bool)
        requires
            old(self).of(before),
        ensures
            final(self).of(before.push(layer@)),
            r == kept(layer@),
    {
        let ghost keys = layer@;
        let ghost after = before.push(keys);
        assert(after.drop_last() =~= before);
        let label = layer.label;
        let file = match layer.parsed {
            Ok(file) => file,
            Err(error) => {
                let ghost problems = complaints(self.faults@);
                assert(complaints(self.faults@.push(error)) =~= problems + seq![error@]);
                self.faults.push(error);
                return false;
            },
        };
        let errors = validate(&file, label.as_str());
        if errors.len() > 0 {
            extend(&mut self.faults, errors);
            return false;
        }
        assert(complaints(errors@) =~= Seq::empty());
        assert(all_problems(before) + Seq::<Complaint>::empty() =~= all_problems(before));
        stamp(&mut self.fact_origin, &file.facts, label.as_str());
        stamp(&mut self.while_origin, &file.while_blocks, label.as_str());
        stamp(&mut self.when_origin, &file.when, label.as_str());
        proof {
            assert(fact_tables(file.facts@).dom() =~= file.facts@.dom());
            assert(block_tables(file.while_blocks@).dom() =~= file.while_blocks@.dom());
            assert(block_tables(file.when@).dom() =~= file.when@.dom());
            a_file_without_complaint_is_fine(label@, file@);
            fine_files_merge_into_a_fine_file(merged(before), file@);
        }
        self.file.overlay(&file);
        let ghost labels = crate::text::views(self.layers@);
        assert(crate::text::views(self.layers@.push(label)) =~= labels.push(label@));
        self.layers.push(label);
        true
    }
}

/// Merges layers that have been read, the one that the package ships first.
///
/// This never fails. A layer with anything wrong in it contributes its complaints and nothing else.
/// Where the first layer is dropped and no other lets the panel darken, a block that does is added,
/// so that a broken package cannot leave the panel lit.
pub fn load_layers(layers: Vec<Layer>) -> (r: (Loaded, Vec<ConfigError>))
    ensures
        loads(r.0, r.1@, layer_views(layers@)),
{
    let ghost all = layer_views(layers@);
    let mut rest = layers;
    let mut merge = Merge::new();
    let mut vendor_dropped = false;
    let mut first_label = VENDOR_CONFIG.to_owned();
    let mut index: usize = 0;
    let len: usize = rest.len();
    assert(all.take(0) =~= Seq::empty());
    assert(layer_views(rest@) =~= all.skip(0));
    while index < len
        invariant
            index <= len,
            len == all.len(),
            layer_views(rest@) == all.skip(index as int),
            rest@.len() == len - index,
            merge.of(all.take(index as int)),
            vendor_dropped == (index > 0 && !kept(all[0])),
            index > 0 ==> first_label@ == all[0].label,
        decreases len - index,
    {
        let ghost before = all.take(index as int);
        assert(layer_views(rest@)[0] == all[index as int]);
        assert(rest@[0]@ == all[index as int]);
        let ghost waiting = rest@;
        let layer = rest.remove(0);
        assert forall|j: int| 0 <= j < rest@.len() implies (#[trigger] rest@[j])@ == all[index + 1
            + j] by {
            assert(layer_views(waiting)[j + 1] == waiting[j + 1]@);
        }
        assert(layer_views(rest@) =~= all.skip(index as int + 1));
        if index == 0 {
            first_label = layer.label.clone();
        }
        let applied = merge.take_in(layer, Ghost(before));
        if index == 0 && !applied {
            vendor_dropped = true;
        }
        assert(before.push(all[index as int]) =~= all.take(index as int + 1));
        index += 1;
    }
    assert(all.take(index as int) =~= all);

    let mut blocks: Vec<Block> = Vec::new();
    let mut warnings: Vec<Warning> = Vec::new();
    assert(notices(warnings@) =~= Seq::empty());
    build_blocks(
        BlockKind::While,
        &merge.file.while_blocks,
        &merge.while_origin,
        &mut blocks,
        &mut warnings,
    );
    let ghost file = merged(all);
    assert(blocks@ =~= built_blocks(
        BlockKind::While,
        file.while_blocks,
        in_order(file.while_blocks.dom()),
    ));
    let ghost first_notices = blocks_notices(
        BlockKind::While,
        block_origin(all, BlockKind::While),
        file.while_blocks,
        in_order(file.while_blocks.dom()),
    );
    assert(notices(warnings@) =~= first_notices);
    build_blocks(BlockKind::When, &merge.file.when, &merge.when_origin, &mut blocks, &mut warnings);
    assert(blocks@ == layered_blocks(all));

    let min_idle = match &merge.file.general {
        Some(general) => match span_of(&general.min_idle) {
            Some(duration) => duration,
            None => Duration::from_secs(DEFAULT_MIN_IDLE_SECS),
        },
        None => Duration::from_secs(DEFAULT_MIN_IDLE_SECS),
    };

    let facts = build_facts(&merge.file, &merge.fact_origin, &mut warnings);

    if vendor_dropped && !any_darkens(&blocks) {
        blocks.push(fallback_screen_off_block());
        let mut message =
            "the vendor layer was dropped and no other layer sets screen_off; applying the compiled-in fallback of ".to_owned();
        let span = format_timeout(Timeout::After(Duration::from_secs(FALLBACK_SCREEN_OFF_SECS)));
        message.append(span.as_str());
        message.append(" so a broken package cannot leave a panel lit");
        push_notice(
            &mut warnings,
            first_label.as_str(),
            "while.always.screen_off".to_owned(),
            message,
        );
    }
    let faults = record_faults(&merge.faults);
    let policy = Policy { blocks, min_idle, facts, faults };
    (Loaded { policy, layers: merge.layers, warnings }, merge.faults)
}

/// What a layer is, by its text.
pub open spec fn layer_of(source: Source) -> LayerKeys {
    LayerKeys {
        label: source.label@,
        parsed: match file_of_text(source.text@) {
            Ok(file) => Ok(file),
            Err(message) => Err(
                Complaint {
                    source: source.label@,
                    location: Seq::empty(),
                    problem: Problem::Syntax(message),
                },
            ),
        },
    }
}

/// What the layers of a list are, by their texts.
pub open spec fn layers_of(sources: Seq<Source>) -> Seq<LayerKeys> {
    sources.map_values(|s: Source| layer_of(s))
}

/// Reads layers and merges them, the one that the package ships first. This never fails.
pub fn load(sources: &[Source]) -> (r: (Loaded, Vec<ConfigError>))
    ensures
        loads(r.0, r.1@, layers_of(sources@)),
{
    let mut layers: Vec<Layer> = Vec::new();
    let mut i: usize = 0;
    while i < sources.len()
        invariant
            i <= sources@.len(),
            layer_views(layers@) == layers_of(sources@).take(i as int),
        decreases sources@.len() - i,
    {
        let source = &sources[i];
        let parsed = parse(source);
        let layer = Layer { label: source.label.clone(), parsed };
        let ghost before = layer_views(layers@);
        assert(layer@ == layer_of(sources@[i as int]));
        assert(layer_views(layers@.push(layer)) =~= before.push(layer@));
        layers.push(layer);
        i += 1;
        assert(layers_of(sources@).take(i as int) =~= layers_of(sources@).take(i as int - 1).push(
            layer_of(sources@[i as int - 1]),
        ));
    }
    assert(layers_of(sources@).take(i as int) =~= layers_of(sources@));
    load_layers(layers)
}

} // verus!
