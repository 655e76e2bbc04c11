//! What a configuration file says, before it is merged with others.
use vstd::prelude::*;

use super::timeout::{parse_timeout, timeout_of, TimeoutError};
use crate::action::Action;
use crate::fact::FactId;
use crate::names::NameMap;
use crate::policy::text_view;
use crate::text::{signed_decimal, signed_text};
use crate::time::{Duration, Timeout};

verus! {

/// A timeout as it is written in a file.
///
/// A bare integer is always wrong. It is kept so that the message can say which unit is missing.
#[derive(Debug, PartialEq, Eq)]
pub enum TimeoutValue {
    /// A text.
    Text(String),
    /// A bare integer.
    Integer(i64),
}

/// A timeout as it is written, as a value of the model.
pub enum Written {
    /// A text.
    Text(Seq<char>),
    /// A bare integer.
    Integer(int),
}

impl View for TimeoutValue {
    type V = Written;

    open spec fn view(&self) -> Written {
        match *self {
            TimeoutValue::Text(text) => Written::Text(text@),
            TimeoutValue::Integer(number) => Written::Integer(number as int),
        }
    }
}

/// What an optional value is, where it is there.
pub open spec fn value_view(value: Option<TimeoutValue>) -> Option<Written> {
    match value {
        Some(v) => Some(v@),
        None => None,
    }
}

/// What is written, as a text.
pub open spec fn spelled(written: Written) -> Seq<char> {
    match written {
        Written::Text(text) => text,
        Written::Integer(number) => signed_decimal(number),
    }
}

/// The timeout that is written.
pub open spec fn written_timeout(written: Written) -> Result<Timeout, TimeoutError> {
    match written {
        Written::Text(text) => timeout_of(text),
        Written::Integer(_) => Err(TimeoutError::MissingUnit),
    }
}

/// The span that is written, where `never` is not allowed.
pub open spec fn written_duration(written: Written) -> Result<Duration, TimeoutError> {
    match written_timeout(written) {
        Ok(Timeout::After(d)) => Ok(d),
        Ok(Timeout::Never) => Err(TimeoutError::NeverNotAllowed),
        Err(error) => Err(error),
    }
}

impl Clone for TimeoutValue {
    fn clone(&self) -> (r: Self)
        ensures
            r == *self,
    {
        match self {
            TimeoutValue::Text(text) => TimeoutValue::Text(text.clone()),
            TimeoutValue::Integer(number) => TimeoutValue::Integer(*number),
        }
    }
}

impl TimeoutValue {
    /// The value exactly as the file spells it.
    pub fn as_written(&self) -> (r: String)
        ensures
            r@ == spelled(self@),
    {
        match self {
            TimeoutValue::Text(text) => text.clone(),
            TimeoutValue::Integer(number) => signed_text(*number),
        }
    }

    /// Reads the value.
    pub fn parse(&self) -> (r: Result<Timeout, TimeoutError>)
        ensures
            r == written_timeout(self@),
    {
        match self {
            TimeoutValue::Text(text) => parse_timeout(text.as_str()),
            TimeoutValue::Integer(_) => Err(TimeoutError::MissingUnit),
        }
    }

    /// Reads the value, where `never` is not allowed.
    pub fn parse_finite(&self) -> (r: Result<Duration, TimeoutError>)
        ensures
            r == written_duration(self@),
    {
        match self.parse() {
            Ok(Timeout::After(duration)) => Ok(duration),
            Ok(Timeout::Never) => Err(TimeoutError::NeverNotAllowed),
            Err(error) => Err(error),
        }
    }
}

fn clone_value(value: &Option<TimeoutValue>) -> (r: Option<TimeoutValue>)
    ensures
        r == *value,
{
    match value {
        Some(v) => Some(v.clone()),
        None => None,
    }
}

fn clone_text(value: &Option<String>) -> (r: Option<String>)
    ensures
        r == *value,
{
    match value {
        Some(v) => Some(v.clone()),
        None => None,
    }
}

/// The later of two values where it is there, and the earlier one where it is not.
pub open spec fn over<A>(earlier: Option<A>, later: Option<A>) -> Option<A> {
    match later {
        Some(v) => Some(v),
        None => earlier,
    }
}

/// The `[general]` table.
#[derive(Debug)]
pub struct GeneralSection {
    /// How long nobody must touch the machine before nobody is there.
    pub min_idle: Option<TimeoutValue>,
}

/// One `[facts.<name>]` table.
///
/// Every fact can be switched off; the other keys belong to some facts only.
#[derive(Debug)]
pub struct FactSection {
    /// Whether the fact is read.
    pub enabled: Option<bool>,
    /// Where a local service publishes its counters.
    pub counters_url: Option<String>,
    /// How long the counters of a local service must stand still.
    pub idle_window: Option<TimeoutValue>,
    /// Where Steam is installed.
    pub steam_root: Option<String>,
    /// How recent a download must be.
    pub window: Option<TimeoutValue>,
}

/// One `[facts.<name>]` table, as a value of the model.
#[verifier::ext_equal]
pub struct FactKeys {
    /// Whether the fact is read.
    pub enabled: Option<bool>,
    /// Where a local service publishes its counters.
    pub counters_url: Option<Seq<char>>,
    /// How long the counters of a local service must stand still.
    pub idle_window: Option<Written>,
    /// Where Steam is installed.
    pub steam_root: Option<Seq<char>>,
    /// How recent a download must be.
    pub window: Option<Written>,
}

impl View for FactSection {
    type V = FactKeys;

    open spec fn view(&self) -> FactKeys {
        FactKeys {
            enabled: self.enabled,
            counters_url: text_view(self.counters_url),
            idle_window: value_view(self.idle_window),
            steam_root: text_view(self.steam_root),
            window: value_view(self.window),
        }
    }
}

/// The table of a fact that says nothing.
pub open spec fn no_fact_keys() -> FactKeys {
    FactKeys {
        enabled: None,
        counters_url: None,
        idle_window: None,
        steam_root: None,
        window: None,
    }
}

/// One table of a fact over another, key by key.
pub open spec fn fact_over(earlier: FactKeys, later: FactKeys) -> FactKeys {
    FactKeys {
        enabled: over(earlier.enabled, later.enabled),
        counters_url: over(earlier.counters_url, later.counters_url),
        idle_window: over(earlier.idle_window, later.idle_window),
        steam_root: over(earlier.steam_root, later.steam_root),
        window: over(earlier.window, later.window),
    }
}

/// The keys that a fact has besides `enabled`.
pub open spec fn keys_of(fact: FactId) -> Seq<Seq<char>> {
    match fact {
        FactId::LocalServiceBusy => seq!["counters_url"@, "idle_window"@],
        FactId::SteamGameRunning => seq!["steam_root"@],
        FactId::SteamDownloading => seq!["steam_root"@, "window"@],
        _ => Seq::empty(),
    }
}

/// A name where it is set, and nothing where it is not.
pub open spec fn named_if(set: bool, name: Seq<char>) -> Seq<Seq<char>> {
    if set {
        seq![name]
    } else {
        Seq::empty()
    }
}

/// The keys besides `enabled` that a table sets, in their order.
pub open spec fn keys_set(keys: FactKeys) -> Seq<Seq<char>> {
    named_if(keys.counters_url is Some, "counters_url"@) + named_if(
        keys.idle_window is Some,
        "idle_window"@,
    ) + named_if(keys.steam_root is Some, "steam_root"@) + named_if(keys.window is Some, "window"@)
}

/// What some names hold, in order.
pub open spec fn str_views(names: Seq<&'static str>) -> Seq<Seq<char>> {
    names.map_values(|n: &'static str| n@)
}

impl FactSection {
    /// A table that says nothing.
    pub fn new() -> (r: Self)
        ensures
            r@ == no_fact_keys(),
    {
        FactSection {
            enabled: None,
            counters_url: None,
            idle_window: None,
            steam_root: None,
            window: None,
        }
    }

    /// Lays another table over this one, key by key.
    pub fn overlay(&mut self, other: &FactSection)
        ensures
            final(self)@ == fact_over(old(self)@, other@),
    {
        if other.enabled.is_some() {
            self.enabled = other.enabled;
        }
        if other.counters_url.is_some() {
            self.counters_url = clone_text(&other.counters_url);
        }
        if other.idle_window.is_some() {
            self.idle_window = clone_value(&other.idle_window);
        }
        if other.steam_root.is_some() {
            self.steam_root = clone_text(&other.steam_root);
        }
        if other.window.is_some() {
            self.window = clone_value(&other.window);
        }
    }

    /// The keys that a fact has besides `enabled`.
    pub fn allowed_keys(fact: FactId) -> (r: Vec<&'static str>)
        ensures
            str_views(r@) == keys_of(fact),
    {
        let mut out: Vec<&'static str> = Vec::new();
        match fact {
            FactId::LocalServiceBusy => {
                out.push("counters_url");
                out.push("idle_window");
            },
            FactId::SteamGameRunning => {
                out.push("steam_root");
            },
            FactId::SteamDownloading => {
                out.push("steam_root");
                out.push("window");
            },
            _ => {},
        }
        assert(str_views(out@) =~= keys_of(fact));
        out
    }

    /// The keys besides `enabled` that the table sets.
    pub fn keys_present(&self) -> (r: Vec<&'static str>)
        ensures
            str_views(r@) == keys_set(self@),
    {
        let mut present: Vec<&'static str> = Vec::new();
        if self.counters_url.is_some() {
            present.push("counters_url");
        }
        if self.idle_window.is_some() {
            present.push("idle_window");
        }
        if self.steam_root.is_some() {
            present.push("steam_root");
        }
        if self.window.is_some() {
            present.push("window");
        }
        assert(str_views(present@) =~= keys_set(self@));
        present
    }
}

impl Clone for FactSection {
    fn clone(&self) -> (r: Self)
        ensures
            r == *self,
    {
        FactSection {
            enabled: self.enabled,
            counters_url: clone_text(&self.counters_url),
            idle_window: clone_value(&self.idle_window),
            steam_root: clone_text(&self.steam_root),
            window: clone_value(&self.window),
        }
    }
}

/// One `[while.<condition>]` or `[when.<condition>]` table.
#[derive(Debug)]
pub struct BlockSection {
    /// Whether the block takes part.
    pub enabled: Option<bool>,
    /// What its timeouts are counted from.
    pub clock: Option<String>,
    /// Before the panel darkens.
    pub screen_off: Option<TimeoutValue>,
    /// Before the machine suspends to memory.
    pub suspend: Option<TimeoutValue>,
    /// Before the machine suspends to disk.
    pub hibernate: Option<TimeoutValue>,
    /// Before the machine powers off.
    pub poweroff: Option<TimeoutValue>,
}

/// One table of a block, as a value of the model.
#[verifier::ext_equal]
pub struct BlockKeys {
    /// Whether the block takes part.
    pub enabled: Option<bool>,
    /// What its timeouts are counted from.
    pub clock: Option<Seq<char>>,
    /// Before the panel darkens.
    pub screen_off: Option<Written>,
    /// Before the machine suspends to memory.
    pub suspend: Option<Written>,
    /// Before the machine suspends to disk.
    pub hibernate: Option<Written>,
    /// Before the machine powers off.
    pub poweroff: Option<Written>,
}

impl BlockKeys {
    /// What is written of an action.
    pub open spec fn of(self, action: Action) -> Option<Written> {
        match action {
            Action::ScreenOff => self.screen_off,
            Action::Suspend => self.suspend,
            Action::Hibernate => self.hibernate,
            Action::PowerOff => self.poweroff,
        }
    }
}

impl View for BlockSection {
    type V = BlockKeys;

    open spec fn view(&self) -> BlockKeys {
        BlockKeys {
            enabled: self.enabled,
            clock: text_view(self.clock),
            screen_off: value_view(self.screen_off),
            suspend: value_view(self.suspend),
            hibernate: value_view(self.hibernate),
            poweroff: value_view(self.poweroff),
        }
    }
}

/// The table of a block that says nothing.
pub open spec fn no_block_keys() -> BlockKeys {
    BlockKeys {
        enabled: None,
        clock: None,
        screen_off: None,
        suspend: None,
        hibernate: None,
        poweroff: None,
    }
}

/// One table of a block over another, key by key.
pub open spec fn block_over(earlier: BlockKeys, later: BlockKeys) -> BlockKeys {
    BlockKeys {
        enabled: over(earlier.enabled, later.enabled),
        clock: over(earlier.clock, later.clock),
        screen_off: over(earlier.screen_off, later.screen_off),
        suspend: over(earlier.suspend, later.suspend),
        hibernate: over(earlier.hibernate, later.hibernate),
        poweroff: over(earlier.poweroff, later.poweroff),
    }
}

impl BlockSection {
    /// A table that says nothing.
    pub fn new() -> (r: Self)
        ensures
            r@ == no_block_keys(),
    {
        BlockSection {
            enabled: None,
            clock: None,
            screen_off: None,
            suspend: None,
            hibernate: None,
            poweroff: None,
        }
    }

    /// What is written of an action.
    pub fn timeout_key(&self, action: Action) -> (r: Option<&TimeoutValue>)
        ensures
            match r {
                Some(value) => self@.of(action) == Some(value@),
                None => self@.of(action) is None,
            },
    {
        match action {
            Action::ScreenOff => self.screen_off.as_ref(),
            Action::Suspend => self.suspend.as_ref(),
            Action::Hibernate => self.hibernate.as_ref(),
            Action::PowerOff => self.poweroff.as_ref(),
        }
    }

    /// Lays another table over this one, key by key.
    pub fn overlay(&mut self, other: &BlockSection)
        ensures
            final(self)@ == block_over(old(self)@, other@),
    {
        if other.enabled.is_some() {
            self.enabled = other.enabled;
        }
        if other.clock.is_some() {
            self.clock = clone_text(&other.clock);
        }
        if other.screen_off.is_some() {
            self.screen_off = clone_value(&other.screen_off);
        }
        if other.suspend.is_some() {
            self.suspend = clone_value(&other.suspend);
        }
        if other.hibernate.is_some() {
            self.hibernate = clone_value(&other.hibernate);
        }
        if other.poweroff.is_some() {
            self.poweroff = clone_value(&other.poweroff);
        }
    }
}

impl Clone for BlockSection {
    fn clone(&self) -> (r: Self)
        ensures
            r == *self,
    {
        BlockSection {
            enabled: self.enabled,
            clock: clone_text(&self.clock),
            screen_off: clone_value(&self.screen_off),
            suspend: clone_value(&self.suspend),
            hibernate: clone_value(&self.hibernate),
            poweroff: clone_value(&self.poweroff),
        }
    }
}

/// One file.
#[derive(Debug)]
pub struct ConfigFile {
    /// The version of the format.
    pub version: Option<u32>,
    /// The `[general]` table.
    pub general: Option<GeneralSection>,
    /// The `[facts.<name>]` tables.
    pub facts: NameMap<FactSection>,
    /// The `[while.<condition>]` tables.
    pub while_blocks: NameMap<BlockSection>,
    /// The `[when.<condition>]` tables.
    pub when: NameMap<BlockSection>,
}

/// One file, as a value of the model.
#[verifier::ext_equal]
pub struct FileKeys {
    /// The version of the format.
    pub version: Option<u32>,
    /// Whether there is a `[general]` table.
    pub general: bool,
    /// How long nobody must touch the machine before nobody is there.
    pub min_idle: Option<Written>,
    /// The `[facts.<name>]` tables.
    pub facts: Map<Seq<char>, FactKeys>,
    /// The `[while.<condition>]` tables.
    pub while_blocks: Map<Seq<char>, BlockKeys>,
    /// The `[when.<condition>]` tables.
    pub when: Map<Seq<char>, BlockKeys>,
}

/// The tables of facts, as values of the model.
pub open spec fn fact_tables(tables: Map<Seq<char>, FactSection>) -> Map<Seq<char>, FactKeys> {
    Map::new(|n: Seq<char>| tables.contains_key(n), |n: Seq<char>| tables[n]@)
}

/// The tables of blocks, as values of the model.
pub open spec fn block_tables(tables: Map<Seq<char>, BlockSection>) -> Map<Seq<char>, BlockKeys> {
    Map::new(|n: Seq<char>| tables.contains_key(n), |n: Seq<char>| tables[n]@)
}

impl View for ConfigFile {
    type V = FileKeys;

    open spec fn view(&self) -> FileKeys {
        FileKeys {
            version: self.version,
            general: self.general is Some,
            min_idle: match self.general {
                Some(g) => value_view(g.min_idle),
                None => None,
            },
            facts: fact_tables(self.facts@),
            while_blocks: block_tables(self.while_blocks@),
            when: block_tables(self.when@),
        }
    }
}

/// The file that says nothing.
pub open spec fn no_file_keys() -> FileKeys {
    FileKeys {
        version: None,
        general: false,
        min_idle: None,
        facts: Map::empty(),
        while_blocks: Map::empty(),
        when: Map::empty(),
    }
}

/// The table of a name, or the one that says nothing.
pub open spec fn fact_keys_at(tables: Map<Seq<char>, FactKeys>, name: Seq<char>) -> FactKeys {
    if tables.contains_key(name) {
        tables[name]
    } else {
        no_fact_keys()
    }
}

/// The table of a name, or the one that says nothing.
pub open spec fn block_keys_at(tables: Map<Seq<char>, BlockKeys>, name: Seq<char>) -> BlockKeys {
    if tables.contains_key(name) {
        tables[name]
    } else {
        no_block_keys()
    }
}

/// The tables of facts over others: a name that only one has keeps its table.
pub open spec fn facts_over(
    earlier: Map<Seq<char>, FactKeys>,
    later: Map<Seq<char>, FactKeys>,
) -> Map<Seq<char>, FactKeys> {
    Map::new(
        |n: Seq<char>| earlier.contains_key(n) || later.contains_key(n),
        |n: Seq<char>|
            if later.contains_key(n) {
                fact_over(fact_keys_at(earlier, n), later[n])
            } else {
                earlier[n]
            },
    )
}

/// The tables of blocks over others: a name that only one has keeps its table.
pub open spec fn blocks_over(
    earlier: Map<Seq<char>, BlockKeys>,
    later: Map<Seq<char>, BlockKeys>,
) -> Map<Seq<char>, BlockKeys> {
    Map::new(
        |n: Seq<char>| earlier.contains_key(n) || later.contains_key(n),
        |n: Seq<char>|
            if later.contains_key(n) {
                block_over(block_keys_at(earlier, n), later[n])
            } else {
                earlier[n]
            },
    )
}

/// One file over another, key by key.
pub open spec fn file_over(earlier: FileKeys, later: FileKeys) -> FileKeys {
    FileKeys {
        version: over(earlier.version, later.version),
        general: earlier.general || later.general,
        min_idle: over(earlier.min_idle, later.min_idle),
        facts: facts_over(earlier.facts, later.facts),
        while_blocks: blocks_over(earlier.while_blocks, later.while_blocks),
        when: blocks_over(earlier.when, later.when),
    }
}

fn overlay_facts(target: &mut NameMap<FactSection>, other: &NameMap<FactSection>)
    ensures
        fact_tables(final(target)@) == facts_over(fact_tables(old(target)@), fact_tables(other@)),
{
    let ghost before = target@;
    let ghost names = crate::names::in_order(other@.dom());
    let mut i: usize = 0;
    let len: usize = other.len();
    while i < len
        invariant
            i <= len,
            len == names.len(),
            names == crate::names::in_order(other@.dom()),
            crate::names::lists(names, other@.dom()),
            forall|n: Seq<char>| #[trigger]
                target@.contains_key(n) <==> before.contains_key(n) || names.take(
                    i as int,
                ).contains(n),
            forall|n: Seq<char>| #[trigger]
                target@.contains_key(n) ==> target@[n]@ == (if names.take(i as int).contains(n) {
                    fact_over(fact_keys_at(fact_tables(before), n), other@[n]@)
                } else {
                    before[n]@
                }),
        decreases len - i,
    {
        let name = other.name_at(i);
        let section = other.value_at(i);
        let mut merged = match target.get(name.as_str()) {
            Some(current) => current.clone(),
            None => FactSection::new(),
        };
        let ghost done = names.take(i as int);
        let ghost next = names.take(i as int + 1);
        proof {
            crate::names::lemma_ascending_take(names, i as int);
            assert(fact_keys_at(fact_tables(before), name@) == merged@);
        }
        merged.overlay(section);
        target.put(name.as_str(), merged);
        proof {
            assert(next =~= done.push(name@));
            assert forall|n: Seq<char>| next.contains(n) <==> done.contains(n) || n == name@ by {
                crate::names::lemma_pushed(done, name@, n);
            }
        }
        i += 1;
    }
    proof {
        assert(names.take(i as int) =~= names);
        assert(fact_tables(target@) =~= facts_over(fact_tables(before), fact_tables(other@)));
    }
}

fn overlay_blocks(target: &mut NameMap<BlockSection>, other: &NameMap<BlockSection>)
    ensures
        block_tables(final(target)@) == blocks_over(
            block_tables(old(target)@),
            block_tables(other@),
        ),
{
    let ghost before = target@;
    let ghost names = crate::names::in_order(other@.dom());
    let mut i: usize = 0;
    let len: usize = other.len();
    while i < len
        invariant
            i <= len,
            len == names.len(),
            names == crate::names::in_order(other@.dom()),
            crate::names::lists(names, other@.dom()),
            forall|n: Seq<char>| #[trigger]
                target@.contains_key(n) <==> before.contains_key(n) || names.take(
                    i as int,
                ).contains(n),
            forall|n: Seq<char>| #[trigger]
                target@.contains_key(n) ==> target@[n]@ == (if names.take(i as int).contains(n) {
                    block_over(block_keys_at(block_tables(before), n), other@[n]@)
                } else {
                    before[n]@
                }),
        decreases len - i,
    {
        let name = other.name_at(i);
        let section = other.value_at(i);
        let mut merged = match target.get(name.as_str()) {
            Some(current) => current.clone(),
            None => BlockSection::new(),
        };
        let ghost done = names.take(i as int);
        let ghost next = names.take(i as int + 1);
        proof {
            crate::names::lemma_ascending_take(names, i as int);
            assert(block_keys_at(block_tables(before), name@) == merged@);
        }
        merged.overlay(section);
        target.put(name.as_str(), merged);
        proof {
            assert(next =~= done.push(name@));
            assert forall|n: Seq<char>| next.contains(n) <==> done.contains(n) || n == name@ by {
                crate::names::lemma_pushed(done, name@, n);
            }
        }
        i += 1;
    }
    proof {
        assert(names.take(i as int) =~= names);
        assert(block_tables(target@) =~= blocks_over(block_tables(before), block_tables(other@)));
    }
}

impl ConfigFile {
    /// A file that says nothing.
    pub fn new() -> (r: Self)
        ensures
            r@ == no_file_keys(),
    {
        let r = ConfigFile {
            version: None,
            general: None,
            facts: NameMap::new(),
            while_blocks: NameMap::new(),
            when: NameMap::new(),
        };
        assert(r@ =~= no_file_keys());
        r
    }

    /// Lays another file over this one, key by key.
    pub fn overlay(&mut self, other: &ConfigFile)
        ensures
            final(self)@ == file_over(old(self)@, other@),
    {
        if other.version.is_some() {
            self.version = other.version;
        }
        match &other.general {
            Some(general) => {
                let mut min_idle = match &self.general {
                    Some(current) => clone_value(&current.min_idle),
                    None => None,
                };
                if general.min_idle.is_some() {
                    min_idle = clone_value(&general.min_idle);
                }
                self.general = Some(GeneralSection { min_idle });
            },
            None => {},
        }
        overlay_facts(&mut self.facts, &other.facts);
        overlay_blocks(&mut self.while_blocks, &other.while_blocks);
        overlay_blocks(&mut self.when, &other.when);
    }
}

impl Default for ConfigFile {
    fn default() -> (r: Self)
        ensures
            r@ == no_file_keys(),
    {
        ConfigFile::new()
    }
}

/// A value that a later file sets wins, and one that it does not set stays.
pub open spec fn wins<A>(before: Option<A>, said: Option<A>, after: Option<A>) -> bool {
    &&& said is Some ==> after == said
    &&& said is None ==> after == before
}

/// A later file wins on each key that it sets, and leaves every other key as it was: in every table
/// of blocks and of facts, and outside them.
pub proof fn later_keys_win_and_the_rest_stays(
    earlier: FileKeys,
    later: FileKeys,
    name: Seq<char>,
    action: Action,
)
    ensures
        ({
            let merged = file_over(earlier, later);
            let before = block_keys_at(earlier.while_blocks, name);
            let said = block_keys_at(later.while_blocks, name);
            let after = block_keys_at(merged.while_blocks, name);
            &&& wins(before.of(action), said.of(action), after.of(action))
            &&& wins(before.enabled, said.enabled, after.enabled)
            &&& wins(before.clock, said.clock, after.clock)
        }),
        ({
            let merged = file_over(earlier, later);
            let before = block_keys_at(earlier.when, name);
            let said = block_keys_at(later.when, name);
            let after = block_keys_at(merged.when, name);
            &&& wins(before.of(action), said.of(action), after.of(action))
            &&& wins(before.enabled, said.enabled, after.enabled)
            &&& wins(before.clock, said.clock, after.clock)
        }),
        ({
            let merged = file_over(earlier, later);
            let before = fact_keys_at(earlier.facts, name);
            let said = fact_keys_at(later.facts, name);
            let after = fact_keys_at(merged.facts, name);
            &&& wins(before.enabled, said.enabled, after.enabled)
            &&& wins(before.counters_url, said.counters_url, after.counters_url)
            &&& wins(before.idle_window, said.idle_window, after.idle_window)
            &&& wins(before.steam_root, said.steam_root, after.steam_root)
            &&& wins(before.window, said.window, after.window)
        }),
        wins(earlier.version, later.version, file_over(earlier, later).version),
        wins(earlier.min_idle, later.min_idle, file_over(earlier, later).min_idle),
        file_over(earlier, no_file_keys()) == earlier,
{
    assert(file_over(earlier, no_file_keys()) =~= earlier) by {
        assert(file_over(earlier, no_file_keys()).facts =~= earlier.facts);
        assert(file_over(earlier, no_file_keys()).while_blocks =~= earlier.while_blocks);
        assert(file_over(earlier, no_file_keys()).when =~= earlier.when);
    }
}

} // verus!
