//! Boot-time facts: the init system, the bootloader, and the default entry
//! that each bootloader's configuration names.

use vstd::prelude::*;
use crate::text::{
    char_views, chars_eq, chars_of, contains, find_char, index_of, lemma_index_of, lines_of,
    occurs_at, occurs_at_exec, split_lines, split_words, str_contains, string_of, trim,
    trim_bounds, trim_start, words,
};

verus! {

/// The init system named by the file name an init symlink points to.
pub open spec fn init_from_link(name: Seq<char>) -> Option<Seq<char>> {
    if contains(name, "openrc"@) {
        Some("openrc"@)
    } else if contains(name, "runit"@) {
        Some("runit"@)
    } else if contains(name, "systemd"@) {
        Some("systemd"@)
    } else {
        None
    }
}

/// The init system from the command name of process 1 (absent when it could
/// not be read) and, for a plain "init", the targets of /sbin/init and
/// /bin/init.
pub open spec fn init_system_of(
    comm: Option<Seq<char>>,
    sbin_link: Option<Seq<char>>,
    bin_link: Option<Seq<char>>,
) -> Seq<char> {
    match comm {
        None => "unknown"@,
        Some(c) => {
            let t = trim(c);
            if t == "systemd"@ {
                "systemd"@
            } else if t == "runit"@ {
                "runit"@
            } else if t == "openrc-init"@ || t == "openrc"@ {
                "openrc"@
            } else if t == "s6-svscan"@ || t == "s6"@ {
                "s6"@
            } else if t == "init"@ {
                match (
                    match sbin_link {
                        Some(l) => init_from_link(l),
                        None => None,
                    },
                    match bin_link {
                        Some(l) => init_from_link(l),
                        None => None,
                    },
                ) {
                    (Some(a), _) => a,
                    (None, Some(b)) => b,
                    (None, None) => "sysvinit"@,
                }
            } else if t == "busybox"@ {
                "busybox-init"@
            } else if t == "linuxrc"@ {
                "linuxrc"@
            } else {
                "unknown"@
            }
        },
    }
}

fn link_init(name: Option<&str>) -> (r: Option<&'static str>)
    ensures
        match (r, name) {
            (Some(x), Some(n)) => init_from_link(n@) == Some(x@),
            (None, Some(n)) => init_from_link(n@) is None,
            (Some(_), None) => false,
            (None, None) => true,
        },
{
    match name {
        Some(n) => {
            if str_contains(n, "openrc") {
                Some("openrc")
            } else if str_contains(n, "runit") {
                Some("runit")
            } else if str_contains(n, "systemd") {
                Some("systemd")
            } else {
                None
            }
        },
        None => None,
    }
}

fn is_word(t: &Vec<char>, w: &str) -> (r: bool)
    ensures
        r == (t@ == w@),
{
    chars_eq(t, &chars_of(w))
}

/// Names the init system.
pub fn detect_init_system(
    comm: Option<&str>,
    sbin_init_link: Option<&str>,
    bin_init_link: Option<&str>,
) -> (r: &'static str)
    ensures
        r@ == init_system_of(
            match comm {
                Some(c) => Some(c@),
                None => None,
            },
            match sbin_init_link {
                Some(l) => Some(l@),
                None => None,
            },
            match bin_init_link {
                Some(l) => Some(l@),
                None => None,
            },
        ),
{
    match comm {
        None => "unknown",
        Some(c) => {
            let v = chars_of(c);
            let (a, b) = trim_bounds(&v, 0, v.len());
            assert(v@.subrange(0, v@.len() as int) =~= v@);
            let t = string_of(&v, a, b);
            let t = chars_of(t.as_str());
            if is_word(&t, "systemd") {
                "systemd"
            } else if is_word(&t, "runit") {
                "runit"
            } else if is_word(&t, "openrc-init") || is_word(&t, "openrc") {
                "openrc"
            } else if is_word(&t, "s6-svscan") || is_word(&t, "s6") {
                "s6"
            } else if is_word(&t, "init") {
                match link_init(sbin_init_link) {
                    Some(x) => x,
                    None => match link_init(bin_init_link) {
                        Some(x) => x,
                        None => "sysvinit",
                    },
                }
            } else if is_word(&t, "busybox") {
                "busybox-init"
            } else if is_word(&t, "linuxrc") {
                "linuxrc"
            } else {
                "unknown"
            }
        },
    }
}

/// `s` without leading and trailing double quotes.
pub open spec fn strip_quotes(s: Seq<char>) -> Seq<char>
    decreases s.len(),
{
    if s.len() > 0 && s[0] == '"' {
        strip_quotes(s.drop_first())
    } else if s.len() > 0 && s.last() == '"' {
        strip_quotes(s.drop_last())
    } else {
        s
    }
}

proof fn lemma_strip_quotes(s: Seq<char>, a: int, b: int)
    requires
        0 <= a <= b <= s.len(),
        forall|k: int| 0 <= k < a ==> s[k] == '"',
        forall|k: int| b <= k < s.len() ==> s[k] == '"',
        a == b || (s[a] != '"' && s[b - 1] != '"'),
    ensures
        strip_quotes(s) == s.subrange(a, b),
    decreases s.len(),
{
    if a > 0 {
        lemma_strip_quotes(s.drop_first(), a - 1, b - 1);
        assert(s.drop_first().subrange(a - 1, b - 1) =~= s.subrange(a, b));
    } else if b < s.len() {
        if s.len() > 0 && s[0] == '"' {
            assert(a == b);
            lemma_strip_quotes(s.drop_first(), 0, 0);
            assert(s.drop_first().subrange(0, 0) =~= s.subrange(a, b));
        } else {
            lemma_strip_quotes(s.drop_last(), a, b);
            assert(s.drop_last().subrange(a, b) =~= s.subrange(a, b));
        }
    } else {
        assert(s.subrange(0, s.len() as int) =~= s);
    }
}

/// The value of a GRUB `set default=` line: the text between the first and
/// the second `=`, without surrounding quotes.
pub open spec fn grub_value(line: Seq<char>) -> Seq<char> {
    let after = line.subrange(index_of(line, '=') + 1int, line.len() as int);
    strip_quotes(after.subrange(0, index_of(after, '=') as int))
}

/// The line's start, past white space, is `prefix`.
pub open spec fn starts_after_space(line: Seq<char>, prefix: Seq<char>) -> bool {
    occurs_at(trim_start(line), prefix, 0)
}

/// The GRUB default entry: the value of the first `set default=` line.
pub open spec fn grub_default_of(lines: Seq<Seq<char>>) -> Option<Seq<char>>
    decreases lines.len(),
{
    if lines.len() == 0 {
        None
    } else {
        match grub_default_of(lines.drop_last()) {
            Some(v) => Some(v),
            None => if starts_after_space(lines.last(), "set default="@) {
                Some(grub_value(lines.last()))
            } else {
                None
            },
        }
    }
}

/// The line starts, past white space, with `prefix`.
fn line_starts_with(line: &Vec<char>, prefix: &Vec<char>) -> (r: bool)
    ensures
        r == occurs_at(trim_start(line@), prefix@, 0),
{
    let mut a: usize = 0;
    while a < line.len() && crate::text::is_white_char(line[a])
        invariant
            a <= line.len(),
            forall|k: int| 0 <= k < a ==> crate::text::is_white(line@[k]),
        decreases line.len() - a,
    {
        a += 1;
    }
    proof {
        crate::text::lemma_trim_start_at(line@, a as int);
    }
    let rest = crate::text::slice_chars(line, a, line.len());
    occurs_at_exec(&rest, prefix, 0)
}

/// Finds the default entry of a GRUB configuration.
pub fn grub_default(cfg: &str) -> (r: Option<String>)
    ensures
        match r {
            Some(s) => grub_default_of(lines_of(cfg@)) == Some(s@),
            None => grub_default_of(lines_of(cfg@)) is None,
        },
{
    let lines = split_lines(&chars_of(cfg));
    let prefix = chars_of("set default=");
    let mut i: usize = 0;
    while i < lines.len()
        invariant
            i <= lines.len(),
            char_views(lines@) == lines_of(cfg@),
            prefix@ == "set default="@,
            grub_default_of(char_views(lines@).take(i as int)) is None,
        decreases lines.len() - i,
    {
        let line = &lines[i];
        let ghost ls = char_views(lines@).take(i + 1);
        assert(ls.drop_last() =~= char_views(lines@).take(i as int));
        assert(ls.last() == line@);
        if line_starts_with(line, &prefix) {
            let p = find_char(line, '=', 0);
            proof {
                lemma_index_of(line@, '=', p as int);
                reveal_strlit("set default=");
                // the prefix holds an '=', so the line does too
                crate::text::lemma_trim_start_suffix(line@);
                let t = trim_start(line@);
                assert(t.subrange(0, 12)[11] == '=');
                let off = line@.len() - t.len();
                assert(line@[off + 11] == t[11]);
            }
            let q = find_char(line, '=', p + 1);
            proof {
                let after = line@.subrange(p + 1int, line@.len() as int);
                lemma_index_of(after, '=', q - p - 1);
            }
            let mut a: usize = p + 1;
            while a < q && line[a] == '"'
                invariant
                    p + 1 <= a <= q <= line.len(),
                    forall|k: int| p + 1 <= k < a ==> line@[k] == '"',
                decreases q - a,
            {
                a += 1;
            }
            let mut b: usize = q;
            while b > a && line[b - 1] == '"'
                invariant
                    a <= b <= q <= line.len(),
                    forall|k: int| b <= k < q ==> line@[k] == '"',
                decreases b - a,
            {
                b -= 1;
            }
            proof {
                let seg = line@.subrange(p + 1int, q as int);
                lemma_strip_quotes(seg, a - p - 1, b - p - 1);
                assert(seg.subrange(a - p - 1, b - p - 1) =~= line@.subrange(a as int, b as int));
                let after = line@.subrange(p + 1int, line@.len() as int);
                assert(after.subrange(0, q - p - 1) =~= seg);
                assert(grub_default_of(ls) == Some(line@.subrange(a as int, b as int)));
                lemma_grub_prefix(char_views(lines@), i + 1);
            }
            return Some(string_of(line, a, b));
        }
        i += 1;
    }
    assert(char_views(lines@).take(lines.len() as int) =~= char_views(lines@));
    None
}

/// The second word of the first line that starts, past white space, with
/// `prefix`; none when there is no such line or it has one word only.
pub open spec fn keyword_default_of(lines: Seq<Seq<char>>, prefix: Seq<char>) -> Option<
    Seq<char>,
>
    decreases lines.len(),
{
    if lines.len() == 0 {
        None
    } else if first_keyword_line(lines.drop_last(), prefix) {
        keyword_default_of(lines.drop_last(), prefix)
    } else if starts_after_space(lines.last(), prefix) {
        let ws = words(lines.last());
        if ws.len() >= 2 {
            Some(ws[1])
        } else {
            None
        }
    } else {
        None
    }
}

/// Some line starts, past white space, with `prefix`.
pub open spec fn first_keyword_line(lines: Seq<Seq<char>>, prefix: Seq<char>) -> bool {
    exists|i: int| 0 <= i < lines.len() && starts_after_space(#[trigger] lines[i], prefix)
}

/// The entry named by the first line starting with `prefix`.
fn keyword_default(cfg: &str, prefix: &str) -> (r: Option<String>)
    ensures
        match r {
            Some(s) => keyword_default_of(lines_of(cfg@), prefix@) == Some(s@),
            None => keyword_default_of(lines_of(cfg@), prefix@) is None,
        },
{
    let lines = split_lines(&chars_of(cfg));
    let pre = chars_of(prefix);
    let mut i: usize = 0;
    while i < lines.len()
        invariant
            i <= lines.len(),
            char_views(lines@) == lines_of(cfg@),
            pre@ == prefix@,
            !first_keyword_line(char_views(lines@).take(i as int), prefix@),
        decreases lines.len() - i,
    {
        let line = &lines[i];
        let ghost ls = char_views(lines@).take(i + 1);
        assert(ls.drop_last() =~= char_views(lines@).take(i as int));
        assert(ls.last() == line@);
        if line_starts_with(line, &pre) {
            let ws = split_words(line);
            proof {
                assert(starts_after_space(ls[i as int], prefix@));
                lemma_keyword_prefix(char_views(lines@), i + 1, prefix@);
            }
            if ws.len() >= 2 {
                assert(ws@[1]@ == words(line@)[1]);
                assert(ws@[1]@.subrange(0, ws@[1]@.len() as int) =~= ws@[1]@);
                return Some(string_of(&ws[1], 0, ws[1].len()));
            }
            return None;
        }
        proof {
            assert forall|k: int| 0 <= k < ls.len() implies !starts_after_space(#[trigger] ls[k], prefix@) by {
                if k < i {
                    assert(ls[k] == char_views(lines@).take(i as int)[k]);
                }
            }
        }
        i += 1;
    }
    assert(char_views(lines@).take(lines.len() as int) =~= char_views(lines@));
    None
}

/// The default entry of a systemd-boot loader configuration.
pub fn systemd_boot_default(cfg: &str) -> (r: Option<String>)
    ensures
        match r {
            Some(s) => keyword_default_of(lines_of(cfg@), "default "@) == Some(s@),
            None => keyword_default_of(lines_of(cfg@), "default "@) is None,
        },
{
    keyword_default(cfg, "default ")
}

/// The default entry of a rEFInd configuration.
pub fn refind_default(cfg: &str) -> (r: Option<String>)
    ensures
        match r {
            Some(s) => keyword_default_of(lines_of(cfg@), "default_selection"@) == Some(s@),
            None => keyword_default_of(lines_of(cfg@), "default_selection"@) is None,
        },
{
    keyword_default(cfg, "default_selection")
}

proof fn lemma_grub_prefix(ls: Seq<Seq<char>>, j: int)
    requires
        0 <= j <= ls.len(),
        grub_default_of(ls.take(j)) is Some,
    ensures
        grub_default_of(ls) == grub_default_of(ls.take(j)),
    decreases ls.len() - j,
{
    if j == ls.len() {
        assert(ls.take(j) =~= ls);
    } else {
        assert(ls.drop_last().take(j) =~= ls.take(j));
        lemma_grub_prefix(ls.drop_last(), j);
    }
}

proof fn lemma_keyword_prefix(ls: Seq<Seq<char>>, j: int, prefix: Seq<char>)
    requires
        0 <= j <= ls.len(),
        first_keyword_line(ls.take(j), prefix),
    ensures
        keyword_default_of(ls, prefix) == keyword_default_of(ls.take(j), prefix),
    decreases ls.len() - j,
{
    if j == ls.len() {
        assert(ls.take(j) =~= ls);
    } else {
        assert(ls.drop_last().take(j) =~= ls.take(j));
        lemma_keyword_prefix(ls.drop_last(), j, prefix);
        let k = choose|k: int| 0 <= k < ls.take(j).len() && starts_after_space(#[trigger] ls.take(j)[k], prefix);
        assert(ls.drop_last()[k] == ls.take(j)[k]);
    }
}

/// A bootloader recognised by its configuration file.
#[derive(Clone, Copy, Debug, PartialEq, Eq, Structural)]
pub enum BootloaderKind {
    Grub,
    SystemdBoot,
    Refind,
    Syslinux,
    Lilo,
    UBoot,
}

pub open spec fn kind_name(k: BootloaderKind) -> Seq<char> {
    match k {
        BootloaderKind::Grub => "GRUB"@,
        BootloaderKind::SystemdBoot => "systemd-boot"@,
        BootloaderKind::Refind => "rEFInd"@,
        BootloaderKind::Syslinux => "Syslinux"@,
        BootloaderKind::Lilo => "LILO"@,
        BootloaderKind::UBoot => "U-Boot"@,
    }
}

pub open spec fn kind_config(k: BootloaderKind) -> Seq<char> {
    match k {
        BootloaderKind::Grub => "/boot/grub/grub.cfg"@,
        BootloaderKind::SystemdBoot => "/boot/loader/loader.conf"@,
        BootloaderKind::Refind => "/boot/efi/EFI/refind/refind.conf"@,
        BootloaderKind::Syslinux => "/boot/syslinux/syslinux.cfg"@,
        BootloaderKind::Lilo => "/etc/lilo.conf"@,
        BootloaderKind::UBoot => "/boot/boot.scr"@,
    }
}

impl BootloaderKind {
    /// The kinds in the order their configuration files are probed.
    pub fn probe_order() -> (r: Vec<BootloaderKind>)
        ensures
            r@ == seq![
                BootloaderKind::Grub,
                BootloaderKind::SystemdBoot,
                BootloaderKind::Refind,
                BootloaderKind::Syslinux,
                BootloaderKind::Lilo,
                BootloaderKind::UBoot,
            ],
    {
        let r = vec![
            BootloaderKind::Grub,
            BootloaderKind::SystemdBoot,
            BootloaderKind::Refind,
            BootloaderKind::Syslinux,
            BootloaderKind::Lilo,
            BootloaderKind::UBoot,
        ];
        assert(r@ =~= seq![
            BootloaderKind::Grub,
            BootloaderKind::SystemdBoot,
            BootloaderKind::Refind,
            BootloaderKind::Syslinux,
            BootloaderKind::Lilo,
            BootloaderKind::UBoot,
        ]);
        r
    }

    /// The bootloader's name.
    pub fn name(&self) -> (r: &'static str)
        ensures
            r@ == kind_name(*self),
    {
        match self {
            BootloaderKind::Grub => "GRUB",
            BootloaderKind::SystemdBoot => "systemd-boot",
            BootloaderKind::Refind => "rEFInd",
            BootloaderKind::Syslinux => "Syslinux",
            BootloaderKind::Lilo => "LILO",
            BootloaderKind::UBoot => "U-Boot",
        }
    }

    /// The configuration file that identifies the bootloader.
    pub fn config_path(&self) -> (r: &'static str)
        ensures
            r@ == kind_config(*self),
    {
        match self {
            BootloaderKind::Grub => "/boot/grub/grub.cfg",
            BootloaderKind::SystemdBoot => "/boot/loader/loader.conf",
            BootloaderKind::Refind => "/boot/efi/EFI/refind/refind.conf",
            BootloaderKind::Syslinux => "/boot/syslinux/syslinux.cfg",
            BootloaderKind::Lilo => "/etc/lilo.conf",
            BootloaderKind::UBoot => "/boot/boot.scr",
        }
    }

    /// Whether the configuration is read to check access; a U-Boot script is not.
    pub fn reads_config(&self) -> (r: bool)
        ensures
            r == (*self != BootloaderKind::UBoot),
    {
        match self {
            BootloaderKind::UBoot => false,
            _ => true,
        }
    }
}

/// What was found of the bootloader.
#[derive(Clone, Debug)]
pub struct BootloaderInfo {
    pub bootloader_type: String,
    pub config_path: Option<String>,
    pub extra_info: Option<String>,
}

pub const UBOOT_NOTE: &'static str = "U-Boot script detected. Kernel parsing not implemented.";

/// The note on the bootloader: a denied read of its configuration is
/// reported, else a U-Boot script is noted.
pub open spec fn extra_info_of(kind: Option<BootloaderKind>, permission_denied: bool) -> Option<
    Seq<char>,
> {
    match kind {
        Some(k) => if permission_denied && k != BootloaderKind::UBoot {
            Some("Could not read: "@ + kind_config(k) + " (permission denied)"@)
        } else if k == BootloaderKind::UBoot {
            Some(UBOOT_NOTE@)
        } else {
            None
        },
        None => None,
    }
}

/// Describes the bootloader whose configuration file was found first
/// (none: "Unknown"), with whether reading that file was denied.
pub fn describe_bootloader(kind: Option<BootloaderKind>, permission_denied: bool) -> (r:
    BootloaderInfo)
    ensures
        r.bootloader_type@ == match kind {
            Some(k) => kind_name(k),
            None => "Unknown"@,
        },
        crate::context::opt_view(r.config_path) == match kind {
            Some(k) => Some(kind_config(k)),
            None => None,
        },
        crate::context::opt_view(r.extra_info) == extra_info_of(kind, permission_denied),
{
    match kind {
        Some(k) => {
            let extra = if permission_denied && k.reads_config() {
                let mut e = "Could not read: ".to_owned();
                e.append(k.config_path());
                e.append(" (permission denied)");
                Some(e)
            } else if !k.reads_config() {
                Some(UBOOT_NOTE.to_owned())
            } else {
                None
            };
            BootloaderInfo {
                bootloader_type: k.name().to_owned(),
                config_path: Some(k.config_path().to_owned()),
                extra_info: extra,
            }
        },
        None => BootloaderInfo {
            bootloader_type: "Unknown".to_owned(),
            config_path: None,
            extra_info: None,
        },
    }
}

} // verus!
