//! Configuration: which sources are enabled, the architectures shown per source,
//! display, logging, daemon and privilege settings, and the commented TOML file
//! written on first run.
use vstd::prelude::*;

use crate::package::{default_arches_spec, display_name_spec, known_arches_spec, str_views, string_views, SourceType};
use crate::text::{chars_eq, chars_of, decimal, decimal_chars, join, push_all, push_str, string_of};

verus! {

/// Which sources are enabled; a source is enabled unless switched off.
#[derive(Debug, Clone)]
pub struct SourcesConfig {
    pub dnf: bool,
    pub flatpak: bool,
    pub apt: bool,
}

pub open spec fn source_enabled(c: SourcesConfig, st: SourceType) -> bool {
    match st {
        SourceType::Dnf => c.dnf,
        SourceType::Flatpak => c.flatpak,
        SourceType::Apt => c.apt,
    }
}

impl SourcesConfig {
    pub fn enabled(&self, st: SourceType) -> (r: bool)
        ensures
            r == source_enabled(*self, st),
    {
        match st {
            SourceType::Dnf => self.dnf,
            SourceType::Flatpak => self.flatpak,
            SourceType::Apt => self.apt,
        }
    }

    pub fn set_enabled(&mut self, st: SourceType, value: bool)
        ensures
            source_enabled(*final(self), st) == value,
            forall|o: SourceType| o != st ==> source_enabled(*final(self), o) == source_enabled(
                *old(self),
                o,
            ),
    {
        match st {
            SourceType::Dnf => self.dnf = value,
            SourceType::Flatpak => self.flatpak = value,
            SourceType::Apt => self.apt = value,
        }
    }

    /// Every source with whether it is enabled, in the source order.
    pub fn iter(&self) -> (r: Vec<(SourceType, bool)>)
        ensures
            r@ == seq![
                (SourceType::Dnf, self.dnf),
                (SourceType::Flatpak, self.flatpak),
                (SourceType::Apt, self.apt),
            ],
    {
        let r = vec![
            (SourceType::Dnf, self.dnf),
            (SourceType::Flatpak, self.flatpak),
            (SourceType::Apt, self.apt),
        ];
        proof {
            assert(r@ =~= seq![
                (SourceType::Dnf, self.dnf),
                (SourceType::Flatpak, self.flatpak),
                (SourceType::Apt, self.apt),
            ]);
        }
        r
    }

    /// The settings a configuration file gives: a source it does not name is enabled.
    pub fn from_flags(dnf: Option<bool>, flatpak: Option<bool>, apt: Option<bool>) -> (r: Self)
        ensures
            r.dnf == (match dnf {
                Some(b) => b,
                None => true,
            }),
            r.flatpak == (match flatpak {
                Some(b) => b,
                None => true,
            }),
            r.apt == (match apt {
                Some(b) => b,
                None => true,
            }),
    {
        SourcesConfig {
            dnf: match dnf {
                Some(b) => b,
                None => true,
            },
            flatpak: match flatpak {
                Some(b) => b,
                None => true,
            },
            apt: match apt {
                Some(b) => b,
                None => true,
            },
        }
    }

    /// The sources that are installed on this machine, as found by probing each
    /// source's binary.
    pub fn detect(dnf_available: bool, flatpak_available: bool, apt_available: bool) -> (r: Self)
        ensures
            r.dnf == dnf_available,
            r.flatpak == flatpak_available,
            r.apt == apt_available,
    {
        SourcesConfig { dnf: dnf_available, flatpak: flatpak_available, apt: apt_available }
    }
}

impl Default for SourcesConfig {
    fn default() -> (r: Self)
        ensures
            r.dnf && r.flatpak && r.apt,
    {
        SourcesConfig { dnf: true, flatpak: true, apt: true }
    }
}

/// The architectures shown per source.
#[derive(Debug, Clone)]
pub struct ArchConfig {
    pub dnf: Vec<String>,
    pub flatpak: Vec<String>,
    pub apt: Vec<String>,
}

pub open spec fn arches_of(c: ArchConfig, st: SourceType) -> Seq<Seq<char>> {
    match st {
        SourceType::Dnf => string_views(c.dnf@),
        SourceType::Flatpak => string_views(c.flatpak@),
        SourceType::Apt => string_views(c.apt@),
    }
}

impl ArchConfig {
    /// The default architectures of every source on a host whose Rust architecture
    /// name is `host`.
    pub fn for_host(host: &str) -> (r: Self)
        ensures
            forall|st: SourceType| arches_of(r, st) == default_arches_spec(st, host@),
    {
        let r = ArchConfig {
            dnf: SourceType::Dnf.default_arches(host),
            flatpak: SourceType::Flatpak.default_arches(host),
            apt: SourceType::Apt.default_arches(host),
        };
        proof {
            assert forall|st: SourceType| arches_of(r, st) == default_arches_spec(st, host@) by {
                match st {
                    SourceType::Dnf => {},
                    SourceType::Flatpak => {},
                    SourceType::Apt => {},
                }
            }
        }
        r
    }

    /// The lists a configuration file gives: a source it does not list gets its
    /// default architectures for the host.
    pub fn from_lists(
        host: &str,
        dnf: Option<Vec<String>>,
        flatpak: Option<Vec<String>>,
        apt: Option<Vec<String>>,
    ) -> (r: Self)
        ensures
            arches_of(r, SourceType::Dnf) == (match dnf {
                Some(v) => string_views(v@),
                None => default_arches_spec(SourceType::Dnf, host@),
            }),
            arches_of(r, SourceType::Flatpak) == (match flatpak {
                Some(v) => string_views(v@),
                None => default_arches_spec(SourceType::Flatpak, host@),
            }),
            arches_of(r, SourceType::Apt) == (match apt {
                Some(v) => string_views(v@),
                None => default_arches_spec(SourceType::Apt, host@),
            }),
    {
        ArchConfig {
            dnf: match dnf {
                Some(v) => v,
                None => SourceType::Dnf.default_arches(host),
            },
            flatpak: match flatpak {
                Some(v) => v,
                None => SourceType::Flatpak.default_arches(host),
            },
            apt: match apt {
                Some(v) => v,
                None => SourceType::Apt.default_arches(host),
            },
        }
    }

    pub fn arches(&self, st: SourceType) -> (r: &Vec<String>)
        ensures
            string_views(r@) == arches_of(*self, st),
    {
        match st {
            SourceType::Dnf => &self.dnf,
            SourceType::Flatpak => &self.flatpak,
            SourceType::Apt => &self.apt,
        }
    }

    pub fn set_arches(&mut self, st: SourceType, arches: Vec<String>)
        ensures
            arches_of(*final(self), st) == string_views(arches@),
            forall|o: SourceType| o != st ==> arches_of(*final(self), o) == arches_of(*old(self), o),
    {
        match st {
            SourceType::Dnf => self.dnf = arches,
            SourceType::Flatpak => self.flatpak = arches,
            SourceType::Apt => self.apt = arches,
        }
    }

    /// Whether packages of architecture `arch` from `source` are shown.
    pub fn arch_allowed(&self, arch: &str, source: SourceType) -> (r: bool)
        ensures
            r == arches_of(*self, source).contains(arch@),
    {
        let list = self.arches(source);
        let a = chars_of(arch);
        let mut i: usize = 0;
        while i < list.len()
            invariant
                0 <= i <= list.len(),
                a@ == arch@,
                string_views(list@) == arches_of(*self, source),
                forall|k: int| 0 <= k < i ==> list@[k]@ != arch@,
            decreases list.len() - i,
        {
            if chars_eq(&chars_of(list[i].as_str()), &a) {
                proof {
                    assert(string_views(list@)[i as int] == arch@);
                }
                return true;
            }
            i = i + 1;
        }
        proof {
            if arches_of(*self, source).contains(arch@) {
                let k = choose|k: int|
                    0 <= k < string_views(list@).len() && string_views(list@)[k] == arch@;
                assert(list@[k]@ == arch@);
            }
        }
        false
    }
}

/// How commands that need root are run.
#[derive(Debug, Clone, Copy, PartialEq, Eq, Structural)]
pub enum PrivilegeEscalation {
    /// `sudo` with a terminal, else `pkexec` when it is installed.
    Auto,
    Sudo,
    Pkexec,
    Doas,
}

impl Default for PrivilegeEscalation {
    fn default() -> (r: Self)
        ensures
            r == PrivilegeEscalation::Auto,
    {
        PrivilegeEscalation::Auto
    }
}

#[derive(Debug, Clone)]
pub struct GeneralConfig {
    pub privilege_escalation: PrivilegeEscalation,
}

impl Default for GeneralConfig {
    fn default() -> (r: Self)
        ensures
            r.privilege_escalation == PrivilegeEscalation::Auto,
    {
        GeneralConfig { privilege_escalation: PrivilegeEscalation::Auto }
    }
}

/// The language setting used when none is given: detect it from the system.
pub fn default_language() -> (r: String)
    ensures
        r@ == "auto"@,
{
    let c = chars_of("auto");
    string_of(&c)
}

#[derive(Debug, Clone)]
pub struct DisplayConfig {
    pub language: String,
    pub architectures: ArchConfig,
}

impl DisplayConfig {
    pub fn for_host(host: &str) -> (r: Self)
        ensures
            r.language@ == "auto"@,
            forall|st: SourceType| arches_of(r.architectures, st) == default_arches_spec(st, host@),
    {
        DisplayConfig { language: default_language(), architectures: ArchConfig::for_host(host) }
    }
}

#[derive(Debug, Clone)]
pub struct LoggingConfig {
    pub file: bool,
}

impl Default for LoggingConfig {
    fn default() -> (r: Self)
        ensures
            r.file,
    {
        LoggingConfig { file: true }
    }
}

/// Whether the terminal's fonts have Nerd Font icons.
#[derive(Debug, Clone, Copy, PartialEq, Eq, Structural)]
pub enum IconStyle {
    Nerd,
    Unicode,
}

impl Default for IconStyle {
    fn default() -> (r: Self)
        ensures
            r == IconStyle::Nerd,
    {
        IconStyle::Nerd
    }
}

impl IconStyle {
    /// Nerd icons when a font family listed by `fc-list : family` names Nerd Fonts.
    pub fn detect(font_families_have_nerd: bool) -> (r: Self)
        ensures
            r == (if font_families_have_nerd {
                IconStyle::Nerd
            } else {
                IconStyle::Unicode
            }),
    {
        if font_families_have_nerd {
            IconStyle::Nerd
        } else {
            IconStyle::Unicode
        }
    }
}

/// The daemon's check interval when none is given, in seconds.
pub fn default_daemon_interval() -> (r: u64)
    ensures
        r == 600,
{
    600
}

pub fn default_true() -> (r: bool)
    ensures
        r,
{
    true
}

#[derive(Debug, Clone)]
pub struct DaemonConfig {
    pub interval: u64,
    pub notify: bool,
}

impl Default for DaemonConfig {
    fn default() -> (r: Self)
        ensures
            r.interval == 600,
            r.notify,
    {
        DaemonConfig { interval: default_daemon_interval(), notify: default_true() }
    }
}

#[derive(Debug, Clone)]
pub struct Config {
    pub sources: SourcesConfig,
    pub display: DisplayConfig,
    pub logging: LoggingConfig,
    pub daemon: DaemonConfig,
    pub general: GeneralConfig,
}

pub open spec fn bool_text(b: bool) -> Seq<char> {
    if b {
        "true"@
    } else {
        "false"@
    }
}

/// The quoted architectures joined by `, `.
pub open spec fn quoted_list(arches: Seq<Seq<char>>) -> Seq<char>
    decreases arches.len(),
{
    if arches.len() == 0 {
        Seq::<char>::empty()
    } else if arches.len() == 1 {
        "\""@ + arches[0] + "\""@
    } else {
        quoted_list(arches.drop_last()) + ", "@ + "\""@ + arches.last() + "\""@
    }
}

/// The lines of one source in `[display.architectures]`.
pub open spec fn arch_section(st: SourceType, arches: Seq<Seq<char>>) -> Seq<char> {
    "# Available: "@ + join(known_arches_spec(st), ", "@) + "\n"@ + display_name_spec(st) + " = ["@
        + quoted_list(arches) + "]\n"@
}

/// The commented configuration file.
pub open spec fn config_toml(c: Config) -> Seq<char> {
    "[sources]\n"@ + "dnf = "@ + bool_text(c.sources.dnf) + "\n"@ + "flatpak = "@ + bool_text(
        c.sources.flatpak,
    ) + "\n"@ + "apt = "@ + bool_text(c.sources.apt) + "\n"@
        + "\n[display]\n# Language: \"auto\" (detect from system), \"en\", or \"pl\"\nlanguage = \""@
        + c.display.language@ + "\"\n"@
        + "\n# Architecture filters per source.\n# Only packages matching these architectures are shown in search results.\n# Defaults are auto-detected from host architecture.\n[display.architectures]\n"@
        + arch_section(SourceType::Dnf, arches_of(c.display.architectures, SourceType::Dnf))
        + arch_section(SourceType::Apt, arches_of(c.display.architectures, SourceType::Apt))
        + "\n[logging]\nfile = "@ + bool_text(c.logging.file) + "\n"@
        + "\n[daemon]\n# Check interval in seconds (default: 600 = 10 minutes)\ninterval = "@
        + decimal(c.daemon.interval as nat)
        + "\n# Show desktop notifications when updates are found\nnotify = "@ + bool_text(
        c.daemon.notify,
    ) + "\n"@
}

/// The commented file states the value of every setting it holds: each source's
/// switch, file logging, the daemon's check interval and its notifications, each on
/// its own `key = value` line after its comment.
pub proof fn lemma_config_file_states_settings(c: Config)
    ensures
        ({
            let t = config_toml(c);
            let tf = |b: bool| if b {
                "true"@
            } else {
                "false"@
            };
            &&& crate::text::contains(t, "dnf = "@ + tf(c.sources.dnf) + "\n"@)
            &&& crate::text::contains(t, "flatpak = "@ + tf(c.sources.flatpak) + "\n"@)
            &&& crate::text::contains(t, "apt = "@ + tf(c.sources.apt) + "\n"@)
            &&& crate::text::contains(t, "\n[logging]\nfile = "@ + tf(c.logging.file) + "\n"@)
            &&& crate::text::contains(
                t,
                "\n[daemon]\n# Check interval in seconds (default: 600 = 10 minutes)\ninterval = "@
                    + decimal(c.daemon.interval as nat),
            )
            &&& crate::text::contains(
                t,
                "\n# Show desktop notifications when updates are found\nnotify = "@ + tf(
                    c.daemon.notify,
                ) + "\n"@,
            )
        }),
{
    let p1 = "[sources]\n"@;
    let p2 = "dnf = "@;
    let p3 = bool_text(c.sources.dnf);
    let p4 = "\n"@;
    let p5 = "flatpak = "@;
    let p6 = bool_text(c.sources.flatpak);
    let p7 = "\n"@;
    let p8 = "apt = "@;
    let p9 = bool_text(c.sources.apt);
    let p10 = "\n"@;
    let p11 = "\n[display]\n# Language: \"auto\" (detect from system), \"en\", or \"pl\"\nlanguage = \""@;
    let p12 = c.display.language@;
    let p13 = "\"\n"@;
    let p14 = "\n# Architecture filters per source.\n# Only packages matching these architectures are shown in search results.\n# Defaults are auto-detected from host architecture.\n[display.architectures]\n"@;
    let p15 = arch_section(SourceType::Dnf, arches_of(c.display.architectures, SourceType::Dnf));
    let p16 = arch_section(SourceType::Apt, arches_of(c.display.architectures, SourceType::Apt));
    let p17 = "\n[logging]\nfile = "@;
    let p18 = bool_text(c.logging.file);
    let p19 = "\n"@;
    let p20 = "\n[daemon]\n# Check interval in seconds (default: 600 = 10 minutes)\ninterval = "@;
    let p21 = decimal(c.daemon.interval as nat);
    let p22 = "\n# Show desktop notifications when updates are found\nnotify = "@;
    let p23 = bool_text(c.daemon.notify);
    let p24 = "\n"@;
    let c1 = p1;
    let c2 = c1 + p2;
    let c3 = c2 + p3;
    let c4 = c3 + p4;
    let c5 = c4 + p5;
    let c6 = c5 + p6;
    let c7 = c6 + p7;
    let c8 = c7 + p8;
    let c9 = c8 + p9;
    let c10 = c9 + p10;
    let c11 = c10 + p11;
    let c12 = c11 + p12;
    let c13 = c12 + p13;
    let c14 = c13 + p14;
    let c15 = c14 + p15;
    let c16 = c15 + p16;
    let c17 = c16 + p17;
    let c18 = c17 + p18;
    let c19 = c18 + p19;
    let c20 = c19 + p20;
    let c21 = c20 + p21;
    let c22 = c21 + p22;
    let c23 = c22 + p23;
    let c24 = c23 + p24;
    assert(config_toml(c) == c24);
    crate::text::lemma_contains_last3(c1, p2, p3, p4);
    crate::text::lemma_contains_append(c4, p5, p2 + p3 + p4);
    crate::text::lemma_contains_append(c5, p6, p2 + p3 + p4);
    crate::text::lemma_contains_append(c6, p7, p2 + p3 + p4);
    crate::text::lemma_contains_append(c7, p8, p2 + p3 + p4);
    crate::text::lemma_contains_append(c8, p9, p2 + p3 + p4);
    crate::text::lemma_contains_append(c9, p10, p2 + p3 + p4);
    crate::text::lemma_contains_append(c10, p11, p2 + p3 + p4);
    crate::text::lemma_contains_append(c11, p12, p2 + p3 + p4);
    crate::text::lemma_contains_append(c12, p13, p2 + p3 + p4);
    crate::text::lemma_contains_append(c13, p14, p2 + p3 + p4);
    crate::text::lemma_contains_append(c14, p15, p2 + p3 + p4);
    crate::text::lemma_contains_append(c15, p16, p2 + p3 + p4);
    crate::text::lemma_contains_append(c16, p17, p2 + p3 + p4);
    crate::text::lemma_contains_append(c17, p18, p2 + p3 + p4);
    crate::text::lemma_contains_append(c18, p19, p2 + p3 + p4);
    crate::text::lemma_contains_append(c19, p20, p2 + p3 + p4);
    crate::text::lemma_contains_append(c20, p21, p2 + p3 + p4);
    crate::text::lemma_contains_append(c21, p22, p2 + p3 + p4);
    crate::text::lemma_contains_append(c22, p23, p2 + p3 + p4);
    crate::text::lemma_contains_append(c23, p24, p2 + p3 + p4);
    crate::text::lemma_contains_last3(c4, p5, p6, p7);
    crate::text::lemma_contains_append(c7, p8, p5 + p6 + p7);
    crate::text::lemma_contains_append(c8, p9, p5 + p6 + p7);
    crate::text::lemma_contains_append(c9, p10, p5 + p6 + p7);
    crate::text::lemma_contains_append(c10, p11, p5 + p6 + p7);
    crate::text::lemma_contains_append(c11, p12, p5 + p6 + p7);
    crate::text::lemma_contains_append(c12, p13, p5 + p6 + p7);
    crate::text::lemma_contains_append(c13, p14, p5 + p6 + p7);
    crate::text::lemma_contains_append(c14, p15, p5 + p6 + p7);
    crate::text::lemma_contains_append(c15, p16, p5 + p6 + p7);
    crate::text::lemma_contains_append(c16, p17, p5 + p6 + p7);
    crate::text::lemma_contains_append(c17, p18, p5 + p6 + p7);
    crate::text::lemma_contains_append(c18, p19, p5 + p6 + p7);
    crate::text::lemma_contains_append(c19, p20, p5 + p6 + p7);
    crate::text::lemma_contains_append(c20, p21, p5 + p6 + p7);
    crate::text::lemma_contains_append(c21, p22, p5 + p6 + p7);
    crate::text::lemma_contains_append(c22, p23, p5 + p6 + p7);
    crate::text::lemma_contains_append(c23, p24, p5 + p6 + p7);
    crate::text::lemma_contains_last3(c7, p8, p9, p10);
    crate::text::lemma_contains_append(c10, p11, p8 + p9 + p10);
    crate::text::lemma_contains_append(c11, p12, p8 + p9 + p10);
    crate::text::lemma_contains_append(c12, p13, p8 + p9 + p10);
    crate::text::lemma_contains_append(c13, p14, p8 + p9 + p10);
    crate::text::lemma_contains_append(c14, p15, p8 + p9 + p10);
    crate::text::lemma_contains_append(c15, p16, p8 + p9 + p10);
    crate::text::lemma_contains_append(c16, p17, p8 + p9 + p10);
    crate::text::lemma_contains_append(c17, p18, p8 + p9 + p10);
    crate::text::lemma_contains_append(c18, p19, p8 + p9 + p10);
    crate::text::lemma_contains_append(c19, p20, p8 + p9 + p10);
    crate::text::lemma_contains_append(c20, p21, p8 + p9 + p10);
    crate::text::lemma_contains_append(c21, p22, p8 + p9 + p10);
    crate::text::lemma_contains_append(c22, p23, p8 + p9 + p10);
    crate::text::lemma_contains_append(c23, p24, p8 + p9 + p10);
    crate::text::lemma_contains_last2(c19, p20, p21);
    crate::text::lemma_contains_append(c21, p22, p20 + p21);
    crate::text::lemma_contains_append(c22, p23, p20 + p21);
    crate::text::lemma_contains_append(c23, p24, p20 + p21);
    crate::text::lemma_contains_last3(c21, p22, p23, p24);
    crate::text::lemma_contains_last3(c16, p17, p18, p19);
    crate::text::lemma_contains_append(c19, p20, p17 + p18 + p19);
    crate::text::lemma_contains_append(c20, p21, p17 + p18 + p19);
    crate::text::lemma_contains_append(c21, p22, p17 + p18 + p19);
    crate::text::lemma_contains_append(c22, p23, p17 + p18 + p19);
    crate::text::lemma_contains_append(c23, p24, p17 + p18 + p19);
}

fn push_bool(out: &mut Vec<char>, b: bool)
    ensures
        final(out)@ == old(out)@ + bool_text(b),
{
    if b {
        push_str(out, "true");
    } else {
        push_str(out, "false");
    }
}

fn push_quoted_list(out: &mut Vec<char>, arches: &Vec<String>)
    ensures
        final(out)@ == old(out)@ + quoted_list(string_views(arches@)),
{
    let ghost start = out@;
    let mut i: usize = 0;
    proof {
        assert(start + quoted_list(string_views(arches@).take(0)) =~= start);
    }
    while i < arches.len()
        invariant
            0 <= i <= arches.len(),
            out@ == start + quoted_list(string_views(arches@).take(i as int)),
        decreases arches.len() - i,
    {
        proof {
            assert(string_views(arches@).take(i + 1).drop_last() =~= string_views(arches@).take(
                i as int,
            ));
            assert(string_views(arches@).take(i + 1).last() == arches@[i as int]@);
        }
        if i > 0 {
            push_str(out, ", ");
        }
        push_str(out, "\"");
        push_str(out, arches[i].as_str());
        push_str(out, "\"");
        proof {
            if i == 0 {
                assert(string_views(arches@).take(1)[0] == arches@[0]@);
            }
        }
        i = i + 1;
    }
    proof {
        assert(string_views(arches@).take(arches@.len() as int) =~= string_views(arches@));
    }
}

fn push_arch_section(out: &mut Vec<char>, st: SourceType, arches: &Vec<String>)
    ensures
        final(out)@ == old(out)@ + arch_section(st, string_views(arches@)),
{
    push_str(out, "# Available: ");
    let known = st.known_arches();
    let mut kv: Vec<Vec<char>> = Vec::new();
    let mut i: usize = 0;
    while i < known.len()
        invariant
            0 <= i <= known.len(),
            views_of(kv@) == str_views(known@).take(i as int),
        decreases known.len() - i,
    {
        let c = chars_of(known[i]);
        proof {
            assert(str_views(known@).take(i + 1) =~= str_views(known@).take(i as int).push(
                known@[i as int]@,
            ));
            assert(views_of(kv@.push(c)) =~= views_of(kv@).push(c@));
        }
        kv.push(c);
        i = i + 1;
    }
    proof {
        assert(str_views(known@).take(known@.len() as int) =~= str_views(known@));
    }
    let joined = crate::text::join_chars(&kv, ", ");
    push_all(out, &joined);
    push_str(out, "\n");
    push_str(out, st.display_name());
    push_str(out, " = [");
    push_quoted_list(out, arches);
    push_str(out, "]\n");
}

pub open spec fn views_of(s: Seq<Vec<char>>) -> Seq<Seq<char>> {
    crate::text::views(s)
}

impl Config {
    /// The default configuration on a host whose Rust architecture name is `host`.
    pub fn for_host(host: &str) -> (r: Self)
        ensures
            r.sources.dnf && r.sources.flatpak && r.sources.apt,
            r.display.language@ == "auto"@,
            forall|st: SourceType|
                arches_of(r.display.architectures, st) == default_arches_spec(st, host@),
            r.logging.file,
            r.daemon.interval == 600,
            r.daemon.notify,
            r.general.privilege_escalation == PrivilegeEscalation::Auto,
    {
        Config {
            sources: SourcesConfig::default(),
            display: DisplayConfig::for_host(host),
            logging: LoggingConfig::default(),
            daemon: DaemonConfig::default(),
            general: GeneralConfig::default(),
        }
    }

    /// The configuration as a commented TOML file.
    pub fn to_toml_commented(&self) -> (r: String)
        ensures
            r@ == config_toml(*self),
    {
        let mut out: Vec<char> = Vec::new();
        push_str(&mut out, "[sources]\n");
        push_str(&mut out, "dnf = ");
        push_bool(&mut out, self.sources.dnf);
        push_str(&mut out, "\n");
        push_str(&mut out, "flatpak = ");
        push_bool(&mut out, self.sources.flatpak);
        push_str(&mut out, "\n");
        push_str(&mut out, "apt = ");
        push_bool(&mut out, self.sources.apt);
        push_str(&mut out, "\n");
        push_str(
            &mut out,
            "\n[display]\n# Language: \"auto\" (detect from system), \"en\", or \"pl\"\nlanguage = \"",
        );
        push_str(&mut out, self.display.language.as_str());
        push_str(&mut out, "\"\n");
        push_str(
            &mut out,
            "\n# Architecture filters per source.\n# Only packages matching these architectures are shown in search results.\n# Defaults are auto-detected from host architecture.\n[display.architectures]\n",
        );
        push_arch_section(&mut out, SourceType::Dnf, self.display.architectures.arches(SourceType::Dnf));
        push_arch_section(&mut out, SourceType::Apt, self.display.architectures.arches(SourceType::Apt));
        push_str(&mut out, "\n[logging]\nfile = ");
        push_bool(&mut out, self.logging.file);
        push_str(&mut out, "\n");
        push_str(&mut out, "\n[daemon]\n# Check interval in seconds (default: 600 = 10 minutes)\ninterval = ");
        let n = decimal_chars(self.daemon.interval);
        push_all(&mut out, &n);
        push_str(&mut out, "\n# Show desktop notifications when updates are found\nnotify = ");
        push_bool(&mut out, self.daemon.notify);
        push_str(&mut out, "\n");
        proof {
            assert(out@ =~= config_toml(*self));
        }
        string_of(&out)
    }
}

} // verus!
