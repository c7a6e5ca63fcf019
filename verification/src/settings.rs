//! The settings tab: which rows it lists for a configuration, how the cursor skips
//! the rows that do nothing, and what activating a row does to the configuration.
use vstd::prelude::*;

use crate::config::{arches_of, source_enabled, Config, SourcesConfig};
use crate::package::{default_arches_spec, known_arches_spec, str_views, string_views, SourceType};
use crate::text::{chars_eq, chars_of, eq_str, string_of};

verus! {

/// The headings of the settings tab.
#[derive(Debug, Clone, Copy, PartialEq, Eq, Structural)]
pub enum SettingsGroup {
    Display,
    Sources,
    Architectures(SourceType),
    Logging,
    Daemon,
}

/// A row of the settings tab.
#[derive(Debug, Clone, Copy)]
pub enum SettingsRow {
    Separator,
    GroupHeader(SettingsGroup),
    SourceToggle(SourceType),
    SourcesReset,
    ArchToggle(SourceType, &'static str),
    ArchReset(SourceType),
    LanguageCycle,
    LogToggle,
    DaemonStatus,
    DaemonInterval,
    NotifyToggle,
}

/// A settings row with its architecture name as a sequence of characters.
pub enum RowView {
    Separator,
    Header(SettingsGroup),
    Source(SourceType),
    SourcesReset,
    Arch(SourceType, Seq<char>),
    ArchReset(SourceType),
    Language,
    Log,
    DaemonStatus,
    DaemonInterval,
    Notify,
}

impl View for SettingsRow {
    type V = RowView;

    open spec fn view(&self) -> RowView {
        match *self {
            SettingsRow::Separator => RowView::Separator,
            SettingsRow::GroupHeader(g) => RowView::Header(g),
            SettingsRow::SourceToggle(st) => RowView::Source(st),
            SettingsRow::SourcesReset => RowView::SourcesReset,
            SettingsRow::ArchToggle(st, a) => RowView::Arch(st, a@),
            SettingsRow::ArchReset(st) => RowView::ArchReset(st),
            SettingsRow::LanguageCycle => RowView::Language,
            SettingsRow::LogToggle => RowView::Log,
            SettingsRow::DaemonStatus => RowView::DaemonStatus,
            SettingsRow::DaemonInterval => RowView::DaemonInterval,
            SettingsRow::NotifyToggle => RowView::Notify,
        }
    }
}

pub open spec fn row_views(rows: Seq<SettingsRow>) -> Seq<RowView> {
    rows.map_values(|r: SettingsRow| r@)
}

/// The architecture rows of a source: shown for an enabled source that filters by
/// architecture, one toggle per known architecture and a reset.
pub open spec fn arch_block(c: Config, st: SourceType) -> Seq<RowView> {
    if source_enabled(c.sources, st) && st != SourceType::Flatpak {
        seq![RowView::Separator, RowView::Header(SettingsGroup::Architectures(st))]
            + known_arches_spec(st).map_values(|a: Seq<char>| RowView::Arch(st, a)) + seq![
            RowView::ArchReset(st),
        ]
    } else {
        Seq::<RowView>::empty()
    }
}

/// The rows of the settings tab for a configuration.
pub open spec fn layout_spec(c: Config) -> Seq<RowView> {
    seq![
        RowView::Header(SettingsGroup::Display),
        RowView::Language,
        RowView::Separator,
        RowView::Header(SettingsGroup::Sources),
        RowView::Source(SourceType::Dnf),
        RowView::Source(SourceType::Flatpak),
        RowView::Source(SourceType::Apt),
        RowView::SourcesReset,
    ] + arch_block(c, SourceType::Dnf) + arch_block(c, SourceType::Flatpak) + arch_block(
        c,
        SourceType::Apt,
    ) + seq![
        RowView::Separator,
        RowView::Header(SettingsGroup::Logging),
        RowView::Log,
        RowView::Separator,
        RowView::Header(SettingsGroup::Daemon),
        RowView::DaemonStatus,
        RowView::DaemonInterval,
        RowView::Notify,
    ]
}

fn push_row(rows: &mut Vec<SettingsRow>, row: SettingsRow)
    ensures
        row_views(final(rows)@) == row_views(old(rows)@).push(row@),
{
    rows.push(row);
    proof {
        assert(row_views(rows@) =~= row_views(old(rows)@).push(row@));
    }
}

fn push_arch_block(rows: &mut Vec<SettingsRow>, config: &Config, st: SourceType)
    ensures
        row_views(final(rows)@) == row_views(old(rows)@) + arch_block(*config, st),
{
    if !config.sources.enabled(st) || !st.has_arch_filter() {
        proof {
            assert(row_views(rows@) + Seq::<RowView>::empty() =~= row_views(rows@));
        }
        return;
    }
    let ghost start = row_views(rows@);
    push_row(rows, SettingsRow::Separator);
    push_row(rows, SettingsRow::GroupHeader(SettingsGroup::Architectures(st)));
    let known = st.known_arches();
    let ghost head = row_views(rows@);
    let mut i: usize = 0;
    while i < known.len()
        invariant
            i <= known.len(),
            str_views(known@) == known_arches_spec(st),
            row_views(rows@) == head + known_arches_spec(st).take(i as int).map_values(
                |a: Seq<char>| RowView::Arch(st, a),
            ),
        decreases known.len() - i,
    {
        proof {
            assert(known_arches_spec(st)[i as int] == known@[i as int]@);
            assert(known_arches_spec(st).take(i + 1).map_values(|a: Seq<char>| RowView::Arch(st, a))
                =~= known_arches_spec(st).take(i as int).map_values(
                |a: Seq<char>| RowView::Arch(st, a),
            ).push(RowView::Arch(st, known@[i as int]@)));
        }
        push_row(rows, SettingsRow::ArchToggle(st, known[i]));
        i = i + 1;
    }
    proof {
        assert(known_arches_spec(st).take(known@.len() as int) =~= known_arches_spec(st));
    }
    push_row(rows, SettingsRow::ArchReset(st));
    proof {
        assert(row_views(rows@) =~= start + arch_block(*config, st));
    }
}

/// The rows of the settings tab, group by group.
pub fn build_settings_layout(config: &Config) -> (r: Vec<SettingsRow>)
    ensures
        row_views(r@) == layout_spec(*config),
{
    let mut rows: Vec<SettingsRow> = Vec::new();
    proof {
        assert(row_views(rows@) =~= Seq::<RowView>::empty());
    }
    push_row(&mut rows, SettingsRow::GroupHeader(SettingsGroup::Display));
    push_row(&mut rows, SettingsRow::LanguageCycle);
    push_row(&mut rows, SettingsRow::Separator);
    push_row(&mut rows, SettingsRow::GroupHeader(SettingsGroup::Sources));
    push_row(&mut rows, SettingsRow::SourceToggle(SourceType::Dnf));
    push_row(&mut rows, SettingsRow::SourceToggle(SourceType::Flatpak));
    push_row(&mut rows, SettingsRow::SourceToggle(SourceType::Apt));
    push_row(&mut rows, SettingsRow::SourcesReset);
    let ghost top = row_views(rows@);
    push_arch_block(&mut rows, config, SourceType::Dnf);
    push_arch_block(&mut rows, config, SourceType::Flatpak);
    push_arch_block(&mut rows, config, SourceType::Apt);
    let ghost mid = row_views(rows@);
    push_row(&mut rows, SettingsRow::Separator);
    push_row(&mut rows, SettingsRow::GroupHeader(SettingsGroup::Logging));
    push_row(&mut rows, SettingsRow::LogToggle);
    push_row(&mut rows, SettingsRow::Separator);
    push_row(&mut rows, SettingsRow::GroupHeader(SettingsGroup::Daemon));
    push_row(&mut rows, SettingsRow::DaemonStatus);
    push_row(&mut rows, SettingsRow::DaemonInterval);
    push_row(&mut rows, SettingsRow::NotifyToggle);
    proof {
        assert(row_views(rows@) =~= layout_spec(*config));
    }
    rows
}

/// Rows that activating does nothing for: headings, separators and the service
/// status line.
pub open spec fn inert(r: RowView) -> bool {
    r is Separator || r is Header || r is DaemonStatus
}

pub open spec fn inert_at(layout: Seq<RowView>, idx: int) -> bool {
    0 <= idx < layout.len() && inert(layout[idx])
}

pub fn is_non_activatable(layout: &[SettingsRow], idx: usize) -> (r: bool)
    ensures
        r == inert_at(row_views(layout@), idx as int),
{
    if idx < layout.len() {
        match layout[idx] {
            SettingsRow::GroupHeader(_) | SettingsRow::Separator | SettingsRow::DaemonStatus => true,
            _ => false,
        }
    } else {
        false
    }
}

/// Moving down from an inert row: the next row that does something, else the last.
pub open spec fn scan_down(layout: Seq<RowView>, i: int) -> int
    decreases layout.len() - i,
{
    if i + 1 >= layout.len() {
        i
    } else if !inert_at(layout, i + 1) || i + 1 == layout.len() - 1 {
        i + 1
    } else {
        scan_down(layout, i + 1)
    }
}

/// Moving up from an inert row: the previous row that does something, else the first.
pub open spec fn scan_up(layout: Seq<RowView>, i: int) -> int
    decreases i,
{
    if i <= 0 {
        i
    } else if !inert_at(layout, i - 1) || i - 1 == 0 {
        i - 1
    } else {
        scan_up(layout, i - 1)
    }
}

/// The selection after the cursor lands on a row in `direction` (down where it is
/// not negative): an inert row is skipped in that direction; nothing changes for an
/// active row, an index past the rows, no selection or no rows.
pub open spec fn skip_groups_spec(layout: Seq<RowView>, direction: int, selected: Option<usize>) -> Option<
    usize,
> {
    match selected {
        Some(idx) => if layout.len() > 0 && inert_at(layout, idx as int) {
            Some(
                (if direction >= 0 {
                    scan_down(layout, idx as int)
                } else {
                    scan_up(layout, idx as int)
                }) as usize,
            )
        } else {
            None
        },
        None => None,
    }
}

proof fn lemma_scan_down_range(layout: Seq<RowView>, i: int)
    requires
        0 <= i < layout.len(),
    ensures
        i <= scan_down(layout, i) < layout.len(),
    decreases layout.len() - i,
{
    if i + 1 < layout.len() && !(!inert_at(layout, i + 1) || i + 1 == layout.len() - 1) {
        lemma_scan_down_range(layout, i + 1);
    }
}

proof fn lemma_scan_up_range(layout: Seq<RowView>, i: int)
    requires
        0 <= i < layout.len(),
    ensures
        0 <= scan_up(layout, i) <= i,
    decreases i,
{
    if i > 0 && !(!inert_at(layout, i - 1) || i - 1 == 0) {
        lemma_scan_up_range(layout, i - 1);
    }
}

/// The cursor never leaves the rows: a skip lands on a row of the layout.
pub proof fn lemma_skip_groups_in_range(layout: Seq<RowView>, direction: int, selected: Option<usize>)
    ensures
        skip_groups_spec(layout, direction, selected) matches Some(i) ==> (i as int) < layout.len(),
{
    if let Some(idx) = selected {
        if layout.len() > 0 && inert_at(layout, idx as int) {
            lemma_scan_down_range(layout, idx as int);
            lemma_scan_up_range(layout, idx as int);
        }
    }
}

/// The row to select when the cursor moved in `direction` onto `selected`; `None`
/// leaves the selection as it is.
pub fn settings_skip_groups(layout: &[SettingsRow], direction: i32, selected: Option<usize>) -> (r:
    Option<usize>)
    ensures
        r == skip_groups_spec(row_views(layout@), direction as int, selected),
{
    let ghost lv = row_views(layout@);
    let max = layout.len();
    if max == 0 {
        return None;
    }
    let start = match selected {
        Some(i) => i,
        None => {
            return None;
        },
    };
    if !is_non_activatable(layout, start) {
        return None;
    }
    let mut idx = start;
    if direction >= 0 {
        loop
            invariant
                max == layout.len() == lv.len(),
                lv == row_views(layout@),
                start <= idx < max,
                scan_down(lv, start as int) == scan_down(lv, idx as int),
                selected == Some(start),
                inert_at(lv, start as int),
                direction >= 0,
            decreases max - idx,
        {
            if idx + 1 >= max {
                return Some(idx);
            }
            let next = idx + 1;
            if !is_non_activatable(layout, next) || next == max - 1 {
                return Some(next);
            }
            idx = next;
        }
    } else {
        loop
            invariant
                max == layout.len() == lv.len(),
                lv == row_views(layout@),
                idx <= start < max,
                scan_up(lv, start as int) == scan_up(lv, idx as int),
                selected == Some(start),
                inert_at(lv, start as int),
                direction < 0,
            decreases idx,
        {
            if idx == 0 {
                return Some(idx);
            }
            let next = idx - 1;
            if !is_non_activatable(layout, next) || next == 0 {
                return Some(next);
            }
            idx = next;
        }
    }
}

// ---------------------------------------------------------------------------
// Activating a row.
// ---------------------------------------------------------------------------

/// What activating a row did.
#[derive(Debug, Clone, Copy, PartialEq, Eq, Structural)]
pub enum SettingOutcome {
    /// The row does nothing.
    Ignored,
    /// The source cannot be switched on: its tool is not installed.
    NotInstalled(SourceType),
    /// The configuration changed and is to be saved.
    Changed,
}

/// The language after `current`: auto, English, Polish and round again; an unknown
/// setting counts as auto.
pub open spec fn next_language(current: Seq<char>) -> Seq<char> {
    if current == "en"@ {
        "pl"@
    } else if current == "pl"@ {
        "auto"@
    } else {
        "en"@
    }
}

/// The check interval after `current`: the first preset (5, 10, 15, 30 minutes, 1,
/// 2, 4, 8 hours, a day) above it, else the first.
pub open spec fn next_interval(current: u64) -> u64 {
    if current < 300 {
        300
    } else if current < 600 {
        600
    } else if current < 900 {
        900
    } else if current < 1800 {
        1800
    } else if current < 3600 {
        3600
    } else if current < 7200 {
        7200
    } else if current < 14400 {
        14400
    } else if current < 28800 {
        28800
    } else if current < 86400 {
        86400
    } else {
        300
    }
}

/// The first index of `x` in `s`.
pub open spec fn first_index(s: Seq<Seq<char>>, x: Seq<char>) -> Option<int>
    decreases s.len(),
{
    if s.len() == 0 {
        None
    } else if s[0] == x {
        Some(0)
    } else {
        match first_index(s.skip(1), x) {
            Some(i) => Some(i + 1),
            None => None,
        }
    }
}

proof fn lemma_first_index(s: Seq<Seq<char>>, x: Seq<char>)
    ensures
        first_index(s, x) matches Some(i) ==> 0 <= i < s.len() && s[i] == x,
    decreases s.len(),
{
    if s.len() > 0 && s[0] != x {
        lemma_first_index(s.skip(1), x);
    }
}

/// An architecture list with `arch` switched: its first occurrence removed, or it
/// added at the end.
pub open spec fn toggled(s: Seq<Seq<char>>, arch: Seq<char>) -> Seq<Seq<char>> {
    match first_index(s, arch) {
        Some(i) => s.remove(i),
        None => s.push(arch),
    }
}

/// Every source shows its default architectures.
pub open spec fn default_arches_everywhere(c: Config, host: Seq<char>) -> bool {
    forall|st: SourceType| arches_of(c.display.architectures, st) == default_arches_spec(st, host)
}

/// The architectures of the other sources are as before.
pub open spec fn other_arches_kept(c: Config, d: Config, st: SourceType) -> bool {
    forall|o: SourceType|
        o != st ==> arches_of(c.display.architectures, o) == arches_of(d.display.architectures, o)
}

/// What activating `row` does to the configuration `old` giving `new`, with the
/// sources installed on the machine and the host architecture name.
pub open spec fn setting_applied(
    old: Config,
    new: Config,
    row: RowView,
    installed: SourcesConfig,
    host: Seq<char>,
    r: SettingOutcome,
) -> bool {
    match row {
        RowView::Source(st) => if !source_enabled(old.sources, st) && !source_enabled(installed, st) {
            r == SettingOutcome::NotInstalled(st) && new == old
        } else {
            &&& r == SettingOutcome::Changed
            &&& source_enabled(new.sources, st) == !source_enabled(old.sources, st)
            &&& forall|o: SourceType|
                o != st ==> source_enabled(new.sources, o) == source_enabled(old.sources, o)
            &&& other_arches_kept(new, old, st)
            &&& arches_of(new.display.architectures, st) == if source_enabled(old.sources, st) {
                arches_of(old.display.architectures, st)
            } else {
                default_arches_spec(st, host)
            }
            &&& new.display.language == old.display.language
            &&& new.logging == old.logging && new.daemon == old.daemon && new.general == old.general
        },
        RowView::SourcesReset => {
            &&& r == SettingOutcome::Changed
            &&& new.sources == installed
            &&& default_arches_everywhere(new, host)
            &&& new.display.language == old.display.language
            &&& new.logging == old.logging && new.daemon == old.daemon && new.general == old.general
        },
        RowView::Arch(st, a) => {
            &&& r == SettingOutcome::Changed
            &&& arches_of(new.display.architectures, st) == toggled(
                arches_of(old.display.architectures, st),
                a,
            )
            &&& other_arches_kept(new, old, st)
            &&& new.sources == old.sources && new.display.language == old.display.language
            &&& new.logging == old.logging && new.daemon == old.daemon && new.general == old.general
        },
        RowView::ArchReset(st) => {
            &&& r == SettingOutcome::Changed
            &&& arches_of(new.display.architectures, st) == default_arches_spec(st, host)
            &&& other_arches_kept(new, old, st)
            &&& new.sources == old.sources && new.display.language == old.display.language
            &&& new.logging == old.logging && new.daemon == old.daemon && new.general == old.general
        },
        RowView::Language => {
            &&& r == SettingOutcome::Changed
            &&& new.display.language@ == next_language(old.display.language@)
            &&& new.display.architectures == old.display.architectures
            &&& new.sources == old.sources && new.logging == old.logging && new.daemon == old.daemon
            &&& new.general == old.general
        },
        RowView::Log => {
            &&& r == SettingOutcome::Changed
            &&& new.logging.file == !old.logging.file
            &&& new.sources == old.sources && new.display == old.display && new.daemon == old.daemon
            &&& new.general == old.general
        },
        RowView::DaemonInterval => {
            &&& r == SettingOutcome::Changed
            &&& new.daemon.interval == next_interval(old.daemon.interval)
            &&& new.daemon.notify == old.daemon.notify
            &&& new.sources == old.sources && new.display == old.display && new.logging == old.logging
            &&& new.general == old.general
        },
        RowView::Notify => {
            &&& r == SettingOutcome::Changed
            &&& new.daemon.notify == !old.daemon.notify
            &&& new.daemon.interval == old.daemon.interval
            &&& new.sources == old.sources && new.display == old.display && new.logging == old.logging
            &&& new.general == old.general
        },
        _ => r == SettingOutcome::Ignored && new == old,
    }
}

fn string_list_index(list: &Vec<String>, x: &[char]) -> (r: Option<usize>)
    ensures
        match r {
            Some(i) => first_index(string_views(list@), x@) == Some(i as int),
            None => first_index(string_views(list@), x@) is None,
        },
{
    let ghost s = string_views(list@);
    let mut i: usize = 0;
    proof {
        assert(s.skip(0) =~= s);
    }
    while i < list.len()
        invariant
            i <= list.len(),
            s == string_views(list@),
            first_index(s, x@) == match first_index(s.skip(i as int), x@) {
                Some(k) => Some(k + i),
                None => None::<int>,
            },
        decreases list.len() - i,
    {
        proof {
            assert(s.skip(i as int)[0] == list@[i as int]@);
            assert(s.skip(i as int).skip(1) =~= s.skip(i + 1));
        }
        if chars_eq(&chars_of(list[i].as_str()), x) {
            return Some(i);
        }
        i = i + 1;
    }
    None
}

fn next_preset(current: u64) -> (r: u64)
    ensures
        r == next_interval(current),
{
    let presets: [u64; 9] = [300, 600, 900, 1800, 3600, 7200, 14400, 28800, 86400];
    let mut i: usize = 0;
    while i < 9
        invariant
            i <= 9,
            presets@ == seq![300u64, 600, 900, 1800, 3600, 7200, 14400, 28800, 86400],
            forall|j: int| 0 <= j < i ==> presets@[j] <= current,
        decreases 9 - i,
    {
        if presets[i] > current {
            return presets[i];
        }
        i = i + 1;
    }
    300
}

fn reset_arches(config: &mut Config, host: &str)
    ensures
        default_arches_everywhere(*final(config), host@),
        final(config).sources == old(config).sources,
        final(config).display.language == old(config).display.language,
        final(config).logging == old(config).logging,
        final(config).daemon == old(config).daemon,
        final(config).general == old(config).general,
{
    config.display.architectures.set_arches(SourceType::Dnf, SourceType::Dnf.default_arches(host));
    config.display.architectures.set_arches(
        SourceType::Flatpak,
        SourceType::Flatpak.default_arches(host),
    );
    config.display.architectures.set_arches(SourceType::Apt, SourceType::Apt.default_arches(host));
    proof {
        assert forall|st: SourceType|
            arches_of(config.display.architectures, st) == default_arches_spec(st, host@) by {
            match st {
                SourceType::Dnf => {},
                SourceType::Flatpak => {},
                SourceType::Apt => {},
            }
        }
    }
}

/// Activates a settings row: switches a source (one that is not installed cannot be
/// switched on; one switched on gets its default architectures), resets the sources
/// to those installed with default architectures, switches an architecture, resets
/// a source's architectures, or moves the language, file logging, check interval or
/// notifications on.
pub fn apply_setting(config: &mut Config, row: SettingsRow, installed: &SourcesConfig, host: &str) -> (r:
    SettingOutcome)
    ensures
        setting_applied(*old(config), *final(config), row@, *installed, host@, r),
{
    match row {
        SettingsRow::SourceToggle(st) => {
            let was_enabled = config.sources.enabled(st);
            if !was_enabled && !installed.enabled(st) {
                return SettingOutcome::NotInstalled(st);
            }
            config.sources.set_enabled(st, !was_enabled);
            if !was_enabled {
                config.display.architectures.set_arches(st, st.default_arches(host));
            }
            SettingOutcome::Changed
        },
        SettingsRow::SourcesReset => {
            config.sources = SourcesConfig::detect(installed.dnf, installed.flatpak, installed.apt);
            reset_arches(config, host);
            SettingOutcome::Changed
        },
        SettingsRow::ArchToggle(st, arch) => {
            let mut arches = crate::package::clone_strings(config.display.architectures.arches(st));
            let a = chars_of(arch);
            let found = string_list_index(&arches, &a);
            proof {
                lemma_first_index(string_views(arches@), a@);
            }
            match found {
                Some(pos) => {
                    let ghost before = string_views(arches@);
                    arches.remove(pos);
                    proof {
                        assert(string_views(arches@) =~= before.remove(pos as int));
                    }
                },
                None => {
                    let ghost before = string_views(arches@);
                    arches.push(string_of(&a));
                    proof {
                        assert(string_views(arches@) =~= before.push(arch@));
                    }
                },
            }
            config.display.architectures.set_arches(st, arches);
            SettingOutcome::Changed
        },
        SettingsRow::ArchReset(st) => {
            config.display.architectures.set_arches(st, st.default_arches(host));
            SettingOutcome::Changed
        },
        SettingsRow::LanguageCycle => {
            let current = chars_of(config.display.language.as_str());
            let next = if eq_str(&current, "en") {
                "pl"
            } else if eq_str(&current, "pl") {
                "auto"
            } else {
                "en"
            };
            config.display.language = string_of(&chars_of(next));
            SettingOutcome::Changed
        },
        SettingsRow::LogToggle => {
            config.logging.file = !config.logging.file;
            SettingOutcome::Changed
        },
        SettingsRow::DaemonInterval => {
            config.daemon.interval = next_preset(config.daemon.interval);
            SettingOutcome::Changed
        },
        SettingsRow::NotifyToggle => {
            config.daemon.notify = !config.daemon.notify;
            SettingOutcome::Changed
        },
        _ => SettingOutcome::Ignored,
    }
}

} // verus!
