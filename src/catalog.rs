//! The kernel catalog: available kernels from a package listing, detailed
//! package metadata, annotation, and the union with installed kernels.

use vstd::prelude::*;
use crate::context::{opt_view, PackageManager};
use crate::kernel::{detect_kernel_variant, variant_of, KernelInfo, KernelVariant};
use crate::text::{
    char_views, chars_eq, chars_of, contains, contains_ci, contains_exec, find_char, index_of,
    join_chars_from, join_space, lemma_index_of, lines_of, remove_all, remove_all_exec,
    split_lines, split_words, str_contains, str_contains_ci, string_of, strings_of, trim,
    trimmed, views, words,
};

verus! {

/// One kernel of a package listing.
#[derive(Clone, Debug)]
pub struct KernelRepoInfo {
    pub name: String,
    pub version: String,
    pub description: String,
    pub repo: String,
}

/// Repository, name, version and description of one listing line.
pub type RepoLine = (Seq<char>, Seq<char>, Seq<char>, Seq<char>);

/// A listing line `<repo>/<name> <version> [flags] <description...>`: the
/// first word holds exactly one slash; the description is the remaining
/// words joined by spaces, with "[installed]" removed, trimmed.
pub open spec fn repo_line(line: Seq<char>) -> Option<RepoLine> {
    let ws = words(line);
    if ws.len() < 2 {
        None
    } else {
        let rn = ws[0];
        let p = index_of(rn, '/');
        if p < rn.len() && index_of(rn.subrange(p + 1int, rn.len() as int), '/') == rn.len() - p
            - 1 {
            Some(
                (
                    rn.subrange(0, p as int),
                    rn.subrange(p + 1int, rn.len() as int),
                    ws[1],
                    trim(remove_all(join_space(ws.subrange(2, ws.len() as int)), "[installed]"@)),
                ),
            )
        } else {
            None
        }
    }
}

/// The entries of the lines that parse, in order.
pub open spec fn repo_entries(lines: Seq<Seq<char>>) -> Seq<RepoLine>
    decreases lines.len(),
{
    if lines.len() == 0 {
        Seq::empty()
    } else {
        let e = repo_entries(lines.drop_last());
        match repo_line(lines.last()) {
            Some(t) => e.push(t),
            None => e,
        }
    }
}

pub open spec fn repo_view(k: KernelRepoInfo) -> RepoLine {
    (k.repo@, k.name@, k.version@, k.description@)
}

pub open spec fn repo_views(v: Seq<KernelRepoInfo>) -> Seq<RepoLine> {
    v.map_values(|k: KernelRepoInfo| repo_view(k))
}

/// Parses one listing line.
fn parse_repo_line(line: &Vec<char>) -> (r: Option<KernelRepoInfo>)
    ensures
        match r {
            Some(k) => repo_line(line@) == Some(repo_view(k)),
            None => repo_line(line@) is None,
        },
{
    let ws = split_words(line);
    if ws.len() < 2 {
        return None;
    }
    let rn = &ws[0];
    assert(rn@ == words(line@)[0]);
    let p = find_char(rn, '/', 0);
    proof {
        lemma_index_of(rn@, '/', p as int);
    }
    if p == rn.len() {
        return None;
    }
    let q = find_char(rn, '/', p + 1);
    proof {
        let tail = rn@.subrange(p + 1, rn@.len() as int);
        lemma_index_of(tail, '/', q - p - 1);
    }
    if q != rn.len() {
        return None;
    }
    let joined = join_chars_from(&ws, 2);
    let flag = chars_of("[installed]");
    proof {
        reveal_strlit("[installed]");
    }
    let cleaned = remove_all_exec(&joined, &flag);
    let desc = trimmed(&cleaned, 0, cleaned.len());
    assert(cleaned@.subrange(0, cleaned@.len() as int) =~= cleaned@);
    assert(ws@[1]@ == words(line@)[1]);
    Some(
        KernelRepoInfo {
            name: string_of(rn, p + 1, rn.len()),
            version: string_of(&ws[1], 0, ws[1].len()),
            description: string_of(&desc, 0, desc.len()),
            repo: string_of(rn, 0, p),
        },
    )
}

/// Parses a package listing into the kernels it names, in order; lines
/// that do not have the listing's form are skipped.
pub fn parse_pacman_kernel_list(pacman_output: &str) -> (r: Vec<KernelRepoInfo>)
    ensures
        repo_views(r@) == repo_entries(lines_of(pacman_output@)),
{
    let text = chars_of(pacman_output);
    let lines = split_lines(&text);
    let mut r: Vec<KernelRepoInfo> = Vec::new();
    let mut i: usize = 0;
    while i < lines.len()
        invariant
            i <= lines.len(),
            char_views(lines@) == lines_of(pacman_output@),
            repo_views(r@) == repo_entries(char_views(lines@).take(i as int)),
        decreases lines.len() - i,
    {
        let ghost prev = repo_views(r@);
        let ghost ls = char_views(lines@).take(i + 1);
        assert(ls.drop_last() =~= char_views(lines@).take(i as int));
        assert(ls.last() == lines@[i as int]@);
        match parse_repo_line(&lines[i]) {
            Some(k) => {
                r.push(k);
                assert(repo_views(r@) =~= prev.push(repo_view(k)));
            },
            None => {},
        }
        i += 1;
    }
    assert(char_views(lines@).take(lines.len() as int) =~= char_views(lines@));
    r
}

/// Detailed package metadata.
#[derive(Clone, Debug)]
pub struct DetailedKernelInfo {
    pub name: String,
    pub version: String,
    pub description: String,
    pub architecture: String,
    pub url: String,
    pub licenses: Vec<String>,
    pub provides: Vec<String>,
    pub depends: Vec<String>,
    pub conflicts: Vec<String>,
    pub replaces: Vec<String>,
    pub install_date: Option<String>,
    pub build_date: Option<String>,
    pub install_reason: Option<String>,
    pub validated_by: Option<String>,
}

/// The key of a `key: value` line: the text before the first colon, trimmed.
pub open spec fn line_key(l: Seq<char>) -> Option<Seq<char>> {
    let p = index_of(l, ':');
    if p < l.len() {
        Some(trim(l.subrange(0, p as int)))
    } else {
        None
    }
}

/// The value of a `key: value` line: the text after the first colon, trimmed.
pub open spec fn line_value(l: Seq<char>) -> Seq<char> {
    trim(l.subrange(index_of(l, ':') + 1int, l.len() as int))
}

/// The value of the last line with the given key.
pub open spec fn field_value(lines: Seq<Seq<char>>, key: Seq<char>) -> Option<Seq<char>>
    decreases lines.len(),
{
    if lines.len() == 0 {
        None
    } else if line_key(lines.last()) == Some(key) {
        Some(line_value(lines.last()))
    } else {
        field_value(lines.drop_last(), key)
    }
}

pub open spec fn text_or_empty(o: Option<Seq<char>>) -> Seq<char> {
    match o {
        Some(t) => t,
        None => Seq::empty(),
    }
}

/// Every field of `d` is what the lines give for its key.
pub open spec fn details_match(d: DetailedKernelInfo, ls: Seq<Seq<char>>) -> bool {
    &&& d.version@ == text_or_empty(field_value(ls, "Version"@))
    &&& d.description@ == text_or_empty(field_value(ls, "Description"@))
    &&& d.architecture@ == text_or_empty(field_value(ls, "Architecture"@))
    &&& d.url@ == text_or_empty(field_value(ls, "URL"@))
    &&& views(d.licenses@) == words(text_or_empty(field_value(ls, "Licenses"@)))
    &&& views(d.provides@) == words(text_or_empty(field_value(ls, "Provides"@)))
    &&& views(d.depends@) == words(text_or_empty(field_value(ls, "Depends On"@)))
    &&& views(d.conflicts@) == words(text_or_empty(field_value(ls, "Conflicts With"@)))
    &&& views(d.replaces@) == words(text_or_empty(field_value(ls, "Replaces"@)))
    &&& opt_view(d.install_date) == field_value(ls, "Install Date"@)
    &&& opt_view(d.build_date) == field_value(ls, "Build Date"@)
    &&& opt_view(d.install_reason) == field_value(ls, "Install Reason"@)
    &&& opt_view(d.validated_by) == field_value(ls, "Validated By"@)
}

impl DetailedKernelInfo {
    /// Reads `key: value` lines of a package query; for each known key the
    /// last line wins, list fields are split into words, unknown keys and
    /// lines without a colon are skipped.
    #[verifier::rlimit(40)]
    pub fn from_pacman_output(output: &str, package_name: &str) -> (r: Option<Self>)
        ensures
            r is Some,
            r->0.name@ == package_name@,
            details_match(r->0, lines_of(output@)),
    {
        let mut info = DetailedKernelInfo {
            name: package_name.to_owned(),
            version: String::new(),
            description: String::new(),
            architecture: String::new(),
            url: String::new(),
            licenses: Vec::new(),
            provides: Vec::new(),
            depends: Vec::new(),
            conflicts: Vec::new(),
            replaces: Vec::new(),
            install_date: None,
            build_date: None,
            install_reason: None,
            validated_by: None,
        };
        let text = chars_of(output);
        let lines = split_lines(&text);
        let k_version = chars_of("Version");
        let k_description = chars_of("Description");
        let k_architecture = chars_of("Architecture");
        let k_url = chars_of("URL");
        let k_licenses = chars_of("Licenses");
        let k_provides = chars_of("Provides");
        let k_depends = chars_of("Depends On");
        let k_conflicts = chars_of("Conflicts With");
        let k_replaces = chars_of("Replaces");
        let k_install_date = chars_of("Install Date");
        let k_build_date = chars_of("Build Date");
        let k_install_reason = chars_of("Install Reason");
        let k_validated_by = chars_of("Validated By");
        proof {
            assert(words(Seq::<char>::empty()) == Seq::<Seq<char>>::empty());
            assert(views(info.licenses@) =~= Seq::<Seq<char>>::empty());
        }
        let mut i: usize = 0;
        while i < lines.len()
            invariant
                i <= lines.len(),
                char_views(lines@) == lines_of(output@),
                info.name@ == package_name@,
                details_match(info, char_views(lines@).take(i as int)),
                k_version@ == "Version"@,
                k_description@ == "Description"@,
                k_architecture@ == "Architecture"@,
                k_url@ == "URL"@,
                k_licenses@ == "Licenses"@,
                k_provides@ == "Provides"@,
                k_depends@ == "Depends On"@,
                k_conflicts@ == "Conflicts With"@,
                k_replaces@ == "Replaces"@,
                k_install_date@ == "Install Date"@,
                k_build_date@ == "Build Date"@,
                k_install_reason@ == "Install Reason"@,
                k_validated_by@ == "Validated By"@,
            decreases lines.len() - i,
        {
            let line = &lines[i];
            let ghost ls = char_views(lines@).take(i + 1);
            proof {
                lemma_detail_keys();
                assert(ls.drop_last() =~= char_views(lines@).take(i as int));
                assert(ls.last() == line@);
            }
            let p = find_char(line, ':', 0);
            proof {
                lemma_index_of(line@, ':', p as int);
            }
            if p < line.len() {
                let key = trimmed(line, 0, p);
                let value = trimmed(line, p + 1, line.len());
                let ghost v = value@;
                if chars_eq(&key, &k_version) {
                    info.version = string_of(&value, 0, value.len());
                } else if chars_eq(&key, &k_description) {
                    info.description = string_of(&value, 0, value.len());
                } else if chars_eq(&key, &k_architecture) {
                    info.architecture = string_of(&value, 0, value.len());
                } else if chars_eq(&key, &k_url) {
                    info.url = string_of(&value, 0, value.len());
                } else if chars_eq(&key, &k_licenses) {
                    info.licenses = strings_of(&split_words(&value));
                } else if chars_eq(&key, &k_provides) {
                    info.provides = strings_of(&split_words(&value));
                } else if chars_eq(&key, &k_depends) {
                    info.depends = strings_of(&split_words(&value));
                } else if chars_eq(&key, &k_conflicts) {
                    info.conflicts = strings_of(&split_words(&value));
                } else if chars_eq(&key, &k_replaces) {
                    info.replaces = strings_of(&split_words(&value));
                } else if chars_eq(&key, &k_install_date) {
                    info.install_date = Some(string_of(&value, 0, value.len()));
                } else if chars_eq(&key, &k_build_date) {
                    info.build_date = Some(string_of(&value, 0, value.len()));
                } else if chars_eq(&key, &k_install_reason) {
                    info.install_reason = Some(string_of(&value, 0, value.len()));
                } else if chars_eq(&key, &k_validated_by) {
                    info.validated_by = Some(string_of(&value, 0, value.len()));
                }
                proof {
                    assert(value@.subrange(0, value@.len() as int) =~= value@);
                    assert(line_key(line@) == Some(key@));
                    assert(line_value(line@) == v);
                }
            }
            assert(details_match(info, ls));
            i += 1;
        }
        assert(char_views(lines@).take(lines.len() as int) =~= char_views(lines@));
        Some(info)
    }
}

/// Distinguishing characters of the metadata keys.
proof fn lemma_detail_keys()
    ensures
        "Version"@[0] == 'V' && "Version"@[1] == 'e',
        "Description"@[0] == 'D' && "Description"@[2] == 's',
        "Architecture"@[0] == 'A',
        "URL"@[0] == 'U',
        "Licenses"@[0] == 'L',
        "Provides"@[0] == 'P',
        "Depends On"@[0] == 'D' && "Depends On"@[2] == 'p',
        "Conflicts With"@[0] == 'C',
        "Replaces"@[0] == 'R',
        "Install Date"@[0] == 'I' && "Install Date"@[8] == 'D',
        "Build Date"@[0] == 'B',
        "Install Reason"@[0] == 'I' && "Install Reason"@[8] == 'R',
        "Validated By"@[0] == 'V' && "Validated By"@[1] == 'a',
{
    reveal_strlit("Version");
    reveal_strlit("Description");
    reveal_strlit("Architecture");
    reveal_strlit("URL");
    reveal_strlit("Licenses");
    reveal_strlit("Provides");
    reveal_strlit("Depends On");
    reveal_strlit("Conflicts With");
    reveal_strlit("Replaces");
    reveal_strlit("Install Date");
    reveal_strlit("Build Date");
    reveal_strlit("Install Reason");
    reveal_strlit("Validated By");
}

/// Some entry of the list holds `n`.
pub open spec fn any_contains(list: Seq<Seq<char>>, n: Seq<char>) -> bool {
    exists|i: int| 0 <= i < list.len() && contains(#[trigger] list[i], n)
}

/// Whether some entry of the list holds `n`.
pub fn any_contains_exec(list: &Vec<String>, n: &str) -> (r: bool)
    ensures
        r == any_contains(views(list@), n@),
{
    let mut i: usize = 0;
    while i < list.len()
        invariant
            i <= list.len(),
            forall|j: int| 0 <= j < i ==> !contains(#[trigger] views(list@)[j], n@),
        decreases list.len() - i,
    {
        if str_contains(list[i].as_str(), n) {
            assert(contains(views(list@)[i as int], n@));
            return true;
        }
        i += 1;
    }
    false
}

pub const NOTE_NVIDIA: &'static str = " (Includes NVIDIA support)";

pub const NOTE_VIRTUALBOX: &'static str = " (VirtualBox guest support)";

/// The description after annotation: NVIDIA support, VirtualBox guest
/// support and the build date, in that order.
pub open spec fn annotated_description(desc: Seq<char>, d: DetailedKernelInfo) -> Seq<char> {
    desc + (if any_contains(views(d.depends@), "nvidia"@) {
        NOTE_NVIDIA@
    } else {
        Seq::empty()
    }) + (if any_contains(views(d.provides@), "virtualbox-guest-modules"@) {
        NOTE_VIRTUALBOX@
    } else {
        Seq::empty()
    }) + match d.build_date {
        Some(b) => " (Built: "@ + b@ + ")"@,
        None => Seq::empty(),
    }
}

/// The variant after annotation; a later rule overrides an earlier one:
/// a "linux-rt" conflict gives real-time, then "hardened", then "zen" in the
/// description (any case) or in a provided name gives that variant.
pub open spec fn annotated_variant(v: KernelVariant, d: DetailedKernelInfo) -> KernelVariant {
    if contains_ci(d.description@, "zen"@) || any_contains(views(d.provides@), "zen"@) {
        KernelVariant::Zen
    } else if contains_ci(d.description@, "hardened"@) || any_contains(
        views(d.provides@),
        "hardened"@,
    ) {
        KernelVariant::Hardened
    } else if any_contains(views(d.conflicts@), "linux-rt"@) {
        KernelVariant::RealTime
    } else {
        v
    }
}

/// Applies the annotation rules of detailed metadata to a candidate.
pub fn analyze_kernel_details(kernel: &mut KernelInfo, details: &DetailedKernelInfo)
    ensures
        final(kernel).name == old(kernel).name,
        final(kernel).version == old(kernel).version,
        final(kernel).installed == old(kernel).installed,
        final(kernel).description@ == annotated_description(old(kernel).description@, *details),
        final(kernel).variant == annotated_variant(old(kernel).variant, *details),
{
    if any_contains_exec(&details.depends, "nvidia") {
        kernel.description.append(NOTE_NVIDIA);
    }
    if any_contains_exec(&details.provides, "virtualbox-guest-modules") {
        kernel.description.append(NOTE_VIRTUALBOX);
    }
    if any_contains_exec(&details.conflicts, "linux-rt") {
        kernel.variant = KernelVariant::RealTime;
    }
    if str_contains_ci(details.description.as_str(), "hardened") || any_contains_exec(
        &details.provides,
        "hardened",
    ) {
        kernel.variant = KernelVariant::Hardened;
    }
    if str_contains_ci(details.description.as_str(), "zen") || any_contains_exec(
        &details.provides,
        "zen",
    ) {
        kernel.variant = KernelVariant::Zen;
    }
    match &details.build_date {
        Some(b) => {
            kernel.description.append(" (Built: ");
            kernel.description.append(b.as_str());
            kernel.description.append(")");
        },
        None => {},
    }
    assert(kernel.description@ =~= annotated_description(old(kernel).description@, *details));
}

/// Fills an empty description from the metadata, then annotates; only
/// pacman metadata is used.
pub open spec fn enhanced(k: KernelInfo, pm: Option<PackageManager>, d: Option<DetailedKernelInfo>) -> (
    Seq<char>,
    KernelVariant,
) {
    match (pm, d) {
        (Some(PackageManager::Pacman), Some(d)) => {
            let base = if k.description@.len() == 0 {
                d.description@
            } else {
                k.description@
            };
            (annotated_description(base, d), annotated_variant(k.variant, d))
        },
        _ => (k.description@, k.variant),
    }
}

/// Enhances a candidate with the metadata fetched for it.
pub fn enhance_kernel_info(
    kernel: &mut KernelInfo,
    package_manager: Option<PackageManager>,
    details: Option<&DetailedKernelInfo>,
)
    ensures
        final(kernel).name == old(kernel).name,
        final(kernel).version == old(kernel).version,
        final(kernel).installed == old(kernel).installed,
        (final(kernel).description@, final(kernel).variant) == enhanced(
            *old(kernel),
            package_manager,
            match details {
                Some(d) => Some(*d),
                None => None,
            },
        ),
{
    match (package_manager, details) {
        (Some(PackageManager::Pacman), Some(d)) => {
            if kernel.description.as_str().is_empty() {
                kernel.description = d.description.clone();
            }
            analyze_kernel_details(kernel, d);
        },
        _ => {},
    }
}

/// The names of a sequence of candidates.
pub open spec fn names(v: Seq<KernelInfo>) -> Seq<Seq<char>> {
    v.map_values(|k: KernelInfo| k.name@)
}

/// Keeps the first entry of each name, in order.
pub open spec fn dedup_by_name(s: Seq<KernelInfo>) -> Seq<KernelInfo>
    decreases s.len(),
{
    if s.len() == 0 {
        Seq::empty()
    } else {
        let prev = dedup_by_name(s.drop_last());
        if names(prev).contains(s.last().name@) {
            prev
        } else {
            prev.push(s.last())
        }
    }
}

/// Whether some candidate has the given name.
fn has_name(v: &Vec<KernelInfo>, name: &String) -> (r: bool)
    ensures
        r == names(v@).contains(name@),
{
    let mut i: usize = 0;
    while i < v.len()
        invariant
            i <= v.len(),
            forall|j: int| 0 <= j < i ==> v@[j].name@ != name@,
        decreases v.len() - i,
    {
        if v[i].name == *name {
            assert(names(v@)[i as int] == name@);
            return true;
        }
        i += 1;
    }
    assert forall|j: int| 0 <= j < names(v@).len() implies names(v@)[j] != name@ by {
        assert(v@[j].name@ != name@);
    }
    false
}

/// The catalog: installed kernels first, then each available kernel whose
/// name is not yet present.
pub fn merge_catalog(installed: &Vec<KernelInfo>, available: &Vec<KernelInfo>) -> (r: Vec<
    KernelInfo,
>)
    ensures
        r@ == dedup_by_name(installed@ + available@),
{
    let ghost all = installed@ + available@;
    let mut r: Vec<KernelInfo> = Vec::new();
    let mut i: usize = 0;
    assert(all.take(0) =~= Seq::<KernelInfo>::empty());
    while i < installed.len()
        invariant
            all == installed@ + available@,
            i <= installed.len(),
            r@ == dedup_by_name(all.take(i as int)),
        decreases installed.len() - i,
    {
        let k = &installed[i];
        assert(*k == all[i as int]);
        assert(all.take(i + 1).drop_last() =~= all.take(i as int));
        if !has_name(&r, &k.name) {
            r.push(k.duplicate());
        }
        i += 1;
    }
    let mut j: usize = 0;
    while j < available.len()
        invariant
            all == installed@ + available@,
            j <= available.len(),
            r@ == dedup_by_name(all.take(installed.len() + j)),
        decreases available.len() - j,
    {
        let k = &available[j];
        let ghost m = installed.len() + j;
        assert(*k == all[m]);
        assert(all.take(m + 1).drop_last() =~= all.take(m));
        if !has_name(&r, &k.name) {
            r.push(k.duplicate());
        }
        j += 1;
    }
    assert(all.take(all.len() as int) =~= all);
    r
}

proof fn lemma_names_push(s: Seq<KernelInfo>, k: KernelInfo, n: Seq<char>)
    ensures
        names(s.push(k)) == names(s).push(k.name@),
        names(s.push(k)).contains(n) == (names(s).contains(n) || k.name@ == n),
{
    assert(names(s.push(k)) =~= names(s).push(k.name@));
    if names(s).contains(n) {
        let j = choose|j: int| 0 <= j < names(s).len() && names(s)[j] == n;
        assert(names(s.push(k))[j] == n);
    }
    if k.name@ == n {
        assert(names(s.push(k))[s.len() as int] == n);
    }
    if names(s.push(k)).contains(n) {
        let j = choose|j: int| 0 <= j < names(s.push(k)).len() && names(s.push(k))[j] == n;
        if j < s.len() {
            assert(names(s)[j] == n);
        }
    }
}

proof fn lemma_dedup_names(s: Seq<KernelInfo>, n: Seq<char>)
    ensures
        names(dedup_by_name(s)).contains(n) == names(s).contains(n),
    decreases s.len(),
{
    if s.len() > 0 {
        lemma_dedup_names(s.drop_last(), n);
        let prev = dedup_by_name(s.drop_last());
        assert(s.drop_last().push(s.last()) =~= s);
        lemma_names_push(s.drop_last(), s.last(), n);
        lemma_names_push(prev, s.last(), n);
        if names(prev).contains(s.last().name@) {
            lemma_dedup_names(s.drop_last(), s.last().name@);
        }
    } else {
        assert(names(s).len() == 0);
        assert(names(dedup_by_name(s)).len() == 0);
    }
}

/// No two entries of the catalog share a name.
pub proof fn lemma_catalog_names_unique(installed: Seq<KernelInfo>, available: Seq<KernelInfo>)
    ensures
        names(dedup_by_name(installed + available)).no_duplicates(),
{
    lemma_dedup_unique(installed + available);
}

proof fn lemma_dedup_unique(s: Seq<KernelInfo>)
    ensures
        names(dedup_by_name(s)).no_duplicates(),
    decreases s.len(),
{
    if s.len() > 0 {
        lemma_dedup_unique(s.drop_last());
        let prev = dedup_by_name(s.drop_last());
        if !names(prev).contains(s.last().name@) {
            assert(names(prev.push(s.last())) =~= names(prev).push(s.last().name@));
        }
    }
}

/// Each entry of the deduplicated sequence is the first entry of `s` with its name.
proof fn lemma_dedup_first(s: Seq<KernelInfo>, i: int)
    requires
        0 <= i < dedup_by_name(s).len(),
    ensures
        exists|j: int|
            #![trigger s[j]]
            0 <= j < s.len() && s[j] == dedup_by_name(s)[i] && forall|k: int|
                0 <= k < j ==> s[k].name@ != s[j].name@,
    decreases s.len(),
{
    let prev = dedup_by_name(s.drop_last());
    if i < prev.len() {
        lemma_dedup_first(s.drop_last(), i);
        let j = choose|j: int|
            #![trigger s.drop_last()[j]]
            0 <= j < s.drop_last().len() && s.drop_last()[j] == prev[i] && forall|k: int|
                0 <= k < j ==> s.drop_last()[k].name@ != s.drop_last()[j].name@;
        assert(s[j] == s.drop_last()[j]);
        assert forall|k: int| 0 <= k < j implies s[k].name@ != s[j].name@ by {
            assert(s[k] == s.drop_last()[k]);
        }
    } else {
        let j = s.len() - 1;
        lemma_dedup_names(s.drop_last(), s.last().name@);
        assert forall|k: int| 0 <= k < j implies s[k].name@ != s[j].name@ by {
            assert(names(s.drop_last())[k] == s[k].name@);
        }
    }
}

/// An entry of the catalog whose name an installed kernel has is the first
/// installed entry of that name; no available entry shadows it.
pub proof fn lemma_installed_wins(
    installed: Seq<KernelInfo>,
    available: Seq<KernelInfo>,
    i: int,
)
    requires
        0 <= i < dedup_by_name(installed + available).len(),
        names(installed).contains(dedup_by_name(installed + available)[i].name@),
    ensures
        exists|j: int|
            0 <= j < installed.len() && installed[j] == dedup_by_name(installed + available)[i]
                && forall|k: int| 0 <= k < j ==> installed[k].name@ != installed[j].name@,
{
    let s = installed + available;
    lemma_dedup_first(s, i);
    let e = dedup_by_name(s)[i];
    let j = choose|j: int|
        #![trigger s[j]]
        0 <= j < s.len() && s[j] == e && forall|k: int| 0 <= k < j ==> s[k].name@ != s[j].name@;
    let m = choose|m: int| 0 <= m < names(installed).len() && names(installed)[m] == e.name@;
    assert(s[m] == installed[m]);
    if j > m {
        assert(s[m].name@ == s[j].name@);
    }
    assert(j <= m);
    assert(installed[j] == s[j]);
    assert forall|k: int| 0 <= k < j implies installed[k].name@ != installed[j].name@ by {
        assert(s[k] == installed[k]);
    }
}

/// A candidate for each installed kernel directory name.
pub fn installed_candidates(dir_names: &Vec<String>) -> (r: Vec<KernelInfo>)
    ensures
        r@.len() == dir_names@.len(),
        forall|i: int|
            0 <= i < r@.len() ==> {
                &&& (#[trigger] r@[i]).name == dir_names@[i]
                &&& r@[i].version@.len() == 0
                &&& r@[i].description@.len() == 0
                &&& r@[i].variant == variant_of(dir_names@[i]@)
                &&& r@[i].installed
            },
{
    let mut r: Vec<KernelInfo> = Vec::new();
    let mut i: usize = 0;
    while i < dir_names.len()
        invariant
            i <= dir_names.len(),
            r@.len() == i,
            forall|j: int|
                0 <= j < i ==> {
                    &&& (#[trigger] r@[j]).name == dir_names@[j]
                    &&& r@[j].version@.len() == 0
                    &&& r@[j].description@.len() == 0
                    &&& r@[j].variant == variant_of(dir_names@[j]@)
                    &&& r@[j].installed
                },
        decreases dir_names.len() - i,
    {
        let name = &dir_names[i];
        r.push(
            KernelInfo {
                name: name.clone(),
                version: String::new(),
                description: String::new(),
                variant: detect_kernel_variant(name.as_str()),
                installed: true,
            },
        );
        i += 1;
    }
    r
}

/// A candidate, not installed, for each kernel of a package listing.
pub fn available_candidates(list: &Vec<KernelRepoInfo>) -> (r: Vec<KernelInfo>)
    ensures
        r@.len() == list@.len(),
        forall|i: int|
            0 <= i < r@.len() ==> {
                &&& (#[trigger] r@[i]).name == list@[i].name
                &&& r@[i].version == list@[i].version
                &&& r@[i].description == list@[i].description
                &&& r@[i].variant == variant_of(list@[i].name@)
                &&& !r@[i].installed
            },
{
    let mut r: Vec<KernelInfo> = Vec::new();
    let mut i: usize = 0;
    while i < list.len()
        invariant
            i <= list.len(),
            r@.len() == i,
            forall|j: int|
                0 <= j < i ==> {
                    &&& (#[trigger] r@[j]).name == list@[j].name
                    &&& r@[j].version == list@[j].version
                    &&& r@[j].description == list@[j].description
                    &&& r@[j].variant == variant_of(list@[j].name@)
                    &&& !r@[j].installed
                },
        decreases list.len() - i,
    {
        let k = &list[i];
        r.push(
            KernelInfo {
                name: k.name.clone(),
                version: k.version.clone(),
                description: k.description.clone(),
                variant: detect_kernel_variant(k.name.as_str()),
                installed: false,
            },
        );
        i += 1;
    }
    r
}

} // verus!
