//! Package names, install commands and the rendered recommendation lines.

use vstd::prelude::*;
use crate::context::{has_tag, list_contains, pm_command, PackageManager};
use crate::catalog::DetailedKernelInfo;
use crate::kernel::{variant_label, KernelInfo};
use crate::text::{join_comma, join_comma_strings};
use crate::rank::{is_ranking, top_positions, ScoredKernel};
use crate::text::{contains, str_contains};
use crate::text::{chars_of, occurs_at, occurs_at_exec, push_char, string_of, views};

verus! {

/// What `char::is_alphabetic` says of a character.
pub uninterp spec fn alphabetic(c: char) -> bool;

/// Relies on `char::is_alphabetic`: whether the character has the Unicode
/// Alphabetic property, a function of the character alone.
#[verifier::external_body]
fn is_alphabetic_char(c: char) -> (r: bool)
    ensures
        r == alphabetic(c),
{
    c.is_alphabetic()
}

/// Position of the first alphabetic character, or `s.len()`.
pub open spec fn first_alphabetic(s: Seq<char>) -> nat
    decreases s.len(),
{
    if s.len() == 0 {
        0
    } else if alphabetic(s[0]) {
        0
    } else {
        1 + first_alphabetic(s.drop_first())
    }
}

proof fn lemma_first_alphabetic(s: Seq<char>, p: int)
    requires
        0 <= p <= s.len(),
        forall|k: int| 0 <= k < p ==> !alphabetic(s[k]),
        p == s.len() || alphabetic(s[p]),
    ensures
        first_alphabetic(s) == p,
    decreases p,
{
    if p > 0 {
        lemma_first_alphabetic(s.drop_first(), p - 1);
    }
}

/// "linux-" followed by the kernel identifier from its first alphabetic
/// character on, or by the whole identifier when it has none.
pub open spec fn package_name_of(id: Seq<char>) -> Seq<char> {
    let p = first_alphabetic(id);
    if p < id.len() {
        "linux-"@ + id.subrange(p as int, id.len() as int)
    } else {
        "linux-"@ + id
    }
}

/// Derives the kernel package base name from a kernel identifier.
pub fn kernel_package_name(kernel_version: &str) -> (r: String)
    ensures
        r@ == package_name_of(kernel_version@),
{
    let v = chars_of(kernel_version);
    let mut p: usize = 0;
    while p < v.len() && !is_alphabetic_char(v[p])
        invariant
            p <= v.len(),
            forall|k: int| 0 <= k < p ==> !alphabetic(v@[k]),
        decreases v.len() - p,
    {
        p += 1;
    }
    proof {
        lemma_first_alphabetic(v@, p as int);
    }
    let mut r = "linux-".to_owned();
    if p < v.len() {
        r.append(string_of(&v, p, v.len()).as_str());
    } else {
        r.append(kernel_version);
    }
    r
}

/// A name that already starts with "linux-" is its own package; otherwise the
/// package name is derived.
pub open spec fn package_base(name: Seq<char>) -> Seq<char> {
    if occurs_at(name, "linux-"@, 0) {
        name
    } else {
        package_name_of(name)
    }
}

/// The install command for a candidate: none when it is installed or no
/// package manager is known; the headers package is added when "dev" or
/// "server" is a use case.
pub open spec fn install_command_of(
    k: KernelInfo,
    pm: Option<PackageManager>,
    use_cases: Seq<Seq<char>>,
) -> Option<Seq<char>> {
    match pm {
        Some(p) if !k.installed => {
            let base = package_base(k.name@);
            let head = "sudo "@ + pm_command(p) + " -S "@ + base;
            if has_tag(use_cases, "dev"@) || has_tag(use_cases, "server"@) {
                Some(head + " "@ + base + "-headers"@)
            } else {
                Some(head)
            }
        },
        _ => None,
    }
}

/// The package base name for a candidate name.
pub fn package_base_name(name: &str) -> (r: String)
    ensures
        r@ == package_base(name@),
{
    if occurs_at_exec(&chars_of(name), &chars_of("linux-"), 0) {
        name.to_owned()
    } else {
        kernel_package_name(name)
    }
}

/// Synthesizes the install command for a candidate.
pub fn install_command(
    k: &KernelInfo,
    pm: Option<PackageManager>,
    use_cases: &Vec<String>,
) -> (r: Option<String>)
    ensures
        opt_seq(r) == install_command_of(*k, pm, views(use_cases@)),
{
    match pm {
        Some(p) => {
            if k.installed {
                return None;
            }
            let base = package_base_name(k.name.as_str());
            let mut cmd = "sudo ".to_owned();
            cmd.append(p.command());
            cmd.append(" -S ");
            cmd.append(base.as_str());
            if list_contains(use_cases, "dev") || list_contains(use_cases, "server") {
                cmd.append(" ");
                cmd.append(base.as_str());
                cmd.append("-headers");
            }
            Some(cmd)
        },
        None => None,
    }
}

pub open spec fn opt_seq(o: Option<String>) -> Option<Seq<char>> {
    match o {
        Some(s) => Some(s@),
        None => None,
    }
}

/// The decimal digits of `n`.
pub open spec fn decimal(n: nat) -> Seq<char>
    decreases n,
{
    if n < 10 {
        seq![digit_char(n)]
    } else {
        decimal(n / 10) + seq![digit_char(n % 10)]
    }
}

pub open spec fn digit_char(d: nat) -> char {
    if d == 0 {
        '0'
    } else if d == 1 {
        '1'
    } else if d == 2 {
        '2'
    } else if d == 3 {
        '3'
    } else if d == 4 {
        '4'
    } else if d == 5 {
        '5'
    } else if d == 6 {
        '6'
    } else if d == 7 {
        '7'
    } else if d == 8 {
        '8'
    } else {
        '9'
    }
}

pub(crate) fn digit(d: u64) -> (c: char)
    requires
        d < 10,
    ensures
        c == digit_char(d as nat),
{
    if d == 0 {
        '0'
    } else if d == 1 {
        '1'
    } else if d == 2 {
        '2'
    } else if d == 3 {
        '3'
    } else if d == 4 {
        '4'
    } else if d == 5 {
        '5'
    } else if d == 6 {
        '6'
    } else if d == 7 {
        '7'
    } else if d == 8 {
        '8'
    } else {
        '9'
    }
}

/// Appends the decimal digits of `n`.
pub fn push_decimal(s: &mut String, n: u64)
    ensures
        final(s)@ == old(s)@ + decimal(n as nat),
    decreases n,
{
    if n >= 10 {
        push_decimal(s, n / 10);
    }
    push_char(s, digit(n % 10));
    assert(final(s)@ =~= old(s)@ + decimal(n as nat));
}

/// The decimal text of a signed integer.
pub open spec fn signed_decimal(i: int) -> Seq<char> {
    if i < 0 {
        seq!['-'] + decimal((-i) as nat)
    } else {
        decimal(i as nat)
    }
}

/// Appends the decimal text of a signed integer.
pub fn push_signed(s: &mut String, i: i32)
    ensures
        final(s)@ == old(s)@ + signed_decimal(i as int),
{
    if i < 0 {
        push_char(s, '-');
        let m: u64 = (0i64 - (i as i64)) as u64;
        push_decimal(s, m);
        assert(final(s)@ =~= old(s)@ + signed_decimal(i as int));
    } else {
        push_decimal(s, i as u64);
    }
}

/// The lines shown for the candidate ranked `rank` (counting from 1).
pub open spec fn recommendation_text(
    rank: nat,
    s: ScoredKernel,
    pm: Option<PackageManager>,
    use_cases: Seq<Seq<char>>,
) -> Seq<Seq<char>> {
    let head = seq![
        decimal(rank) + ". "@ + s.kernel.name@ + " (Score: "@ + signed_decimal(s.score as int)
            + ")"@,
        "   Variant: "@ + variant_label(s.kernel.variant),
        "   Reason: "@ + s.explanation@,
    ];
    match install_command_of(s.kernel, pm, use_cases) {
        Some(c) => head.push("   Install: "@ + c),
        None => head,
    }
}

/// Renders one recommendation.
pub fn recommendation_lines(
    rank: u64,
    s: &ScoredKernel,
    pm: Option<PackageManager>,
    use_cases: &Vec<String>,
) -> (r: Vec<String>)
    ensures
        views(r@) == recommendation_text(rank as nat, *s, pm, views(use_cases@)),
{
    let mut first = String::new();
    push_decimal(&mut first, rank);
    first.append(". ");
    first.append(s.kernel.name.as_str());
    first.append(" (Score: ");
    push_signed(&mut first, s.score);
    first.append(")");
    let mut second = "   Variant: ".to_owned();
    second.append(s.kernel.variant.label());
    let mut third = "   Reason: ".to_owned();
    third.append(s.explanation.as_str());
    let mut r: Vec<String> = Vec::new();
    r.push(first);
    r.push(second);
    r.push(third);
    match install_command(&s.kernel, pm, use_cases) {
        Some(c) => {
            let mut fourth = "   Install: ".to_owned();
            fourth.append(c.as_str());
            r.push(fourth);
        },
        None => {},
    }
    assert(views(r@) =~= recommendation_text(rank as nat, *s, pm, views(use_cases@)));
    r
}

/// The command that installs a missing headers package.
pub open spec fn headers_hint_of(pm: PackageManager, headers_pkg: Seq<char>) -> Seq<char> {
    match pm {
        PackageManager::Pacman => "sudo pacman -S "@ + headers_pkg,
        PackageManager::Apt => "sudo apt install "@ + headers_pkg,
        PackageManager::Dnf => "sudo dnf install kernel-headers"@,
        PackageManager::Apk => "sudo apk add linux-headers"@,
        PackageManager::Zypper => "sudo zypper install kernel-devel"@,
        PackageManager::Emerge => "sudo emerge --ask sys-kernel/linux-headers"@,
    }
}

/// Suggests how to install a missing headers package.
pub fn headers_install_hint(pm: PackageManager, headers_pkg: &str) -> (r: String)
    ensures
        r@ == headers_hint_of(pm, headers_pkg@),
{
    match pm {
        PackageManager::Pacman => {
            let mut r = "sudo pacman -S ".to_owned();
            r.append(headers_pkg);
            r
        },
        PackageManager::Apt => {
            let mut r = "sudo apt install ".to_owned();
            r.append(headers_pkg);
            r
        },
        PackageManager::Dnf => "sudo dnf install kernel-headers".to_owned(),
        PackageManager::Apk => "sudo apk add linux-headers".to_owned(),
        PackageManager::Zypper => "sudo zypper install kernel-devel".to_owned(),
        PackageManager::Emerge => "sudo emerge --ask sys-kernel/linux-headers".to_owned(),
    }
}

/// The headers package of the running kernel.
pub fn headers_package(current_kernel: &str) -> (r: String)
    ensures
        r@ == package_name_of(current_kernel@) + "-headers"@,
{
    let mut r = kernel_package_name(current_kernel);
    r.append("-headers");
    r
}

/// Whether a package query's output says the package is installed: pacman
/// and apk print something, dpkg prints an "installed" status, the others
/// print the package name. `text` is the output when it is valid UTF-8.
pub open spec fn installed_from_output(
    pm: PackageManager,
    pkg: Seq<char>,
    output_nonempty: bool,
    text: Option<Seq<char>>,
) -> bool {
    match pm {
        PackageManager::Pacman | PackageManager::Apk => output_nonempty,
        PackageManager::Apt => text matches Some(t) && contains(t, "installed"@),
        _ => text matches Some(t) && contains(t, pkg),
    }
}

/// Decides from a package query's output whether the package is installed.
pub fn package_installed_from_output(
    pm: PackageManager,
    pkg: &str,
    output_nonempty: bool,
    text: Option<&str>,
) -> (r: bool)
    ensures
        r == installed_from_output(
            pm,
            pkg@,
            output_nonempty,
            match text {
                Some(t) => Some(t@),
                None => None,
            },
        ),
{
    match pm {
        PackageManager::Pacman | PackageManager::Apk => output_nonempty,
        PackageManager::Apt => match text {
            Some(t) => str_contains(t, "installed"),
            None => false,
        },
        _ => match text {
            Some(t) => str_contains(t, pkg),
            None => false,
        },
    }
}

/// The kernel summary: the running kernel, then each installed kernel in
/// the given order, the running one marked.
pub open spec fn kernel_summary_of(current: Seq<char>, installed: Seq<Seq<char>>) -> Seq<char>
    decreases installed.len(),
{
    if installed.len() == 0 {
        "Kernel: "@ + current + "\nInstalled Kernels:"@
    } else {
        let k = installed.last();
        kernel_summary_of(current, installed.drop_last()) + if k == current {
            "\n  * "@ + k + " (running)"@
        } else {
            "\n  - "@ + k
        }
    }
}

/// Summarises the running and installed kernels.
pub fn kernel_summary(current: &str, installed: &Vec<String>) -> (r: String)
    ensures
        r@ == kernel_summary_of(current@, views(installed@)),
{
    let mut r = "Kernel: ".to_owned();
    r.append(current);
    r.append("\nInstalled Kernels:");
    let cur = current.to_owned();
    let mut i: usize = 0;
    while i < installed.len()
        invariant
            i <= installed.len(),
            cur@ == current@,
            r@ == kernel_summary_of(current@, views(installed@).take(i as int)),
        decreases installed.len() - i,
    {
        let ghost ks = views(installed@).take(i + 1);
        assert(ks.drop_last() =~= views(installed@).take(i as int));
        let k = &installed[i];
        if *k == cur {
            r.append("\n  * ");
            r.append(k.as_str());
            r.append(" (running)");
        } else {
            r.append("\n  - ");
            r.append(k.as_str());
        }
        i += 1;
    }
    assert(views(installed@).take(installed.len() as int) =~= views(installed@));
    r
}

/// One line when `b` holds, none otherwise.
pub open spec fn line_if(b: bool, l: Seq<char>) -> Seq<Seq<char>> {
    if b {
        seq![l]
    } else {
        Seq::empty()
    }
}

/// The detailed view of a kernel: name, variant and description, then,
/// when metadata is known, its version, architecture and URL, the licenses
/// and provided names when there are any, and the build and install dates
/// when known.
pub open spec fn detail_text(k: KernelInfo, d: Option<DetailedKernelInfo>) -> Seq<Seq<char>> {
    let head = seq![
        "\nDetailed Information for "@ + k.name@ + ":"@,
        "Variant: "@ + variant_label(k.variant),
        "Description: "@ + k.description@,
    ];
    match d {
        None => head,
        Some(d) => head + seq![
            "\nAdditional Details:"@,
            "Version: "@ + d.version@,
            "Architecture: "@ + d.architecture@,
            "URL: "@ + d.url@,
        ] + line_if(d.licenses@.len() > 0, "Licenses: "@ + join_comma(views(d.licenses@)))
            + line_if(d.provides@.len() > 0, "Provides: "@ + join_comma(views(d.provides@)))
            + match d.build_date {
            Some(b) => seq!["Build Date: "@ + b@],
            None => Seq::empty(),
        } + match d.install_date {
            Some(i) => seq!["Install Date: "@ + i@],
            None => Seq::empty(),
        },
    }
}

fn labelled(label: &str, value: &str) -> (r: String)
    ensures
        r@ == label@ + value@,
{
    let mut r = label.to_owned();
    r.append(value);
    r
}

/// The lines of the detailed view of a kernel.
pub fn detailed_info_lines(kernel: &KernelInfo, details: Option<&DetailedKernelInfo>) -> (r: Vec<
    String,
>)
    ensures
        views(r@) == detail_text(
            *kernel,
            match details {
                Some(d) => Some(*d),
                None => None,
            },
        ),
{
    let mut r: Vec<String> = Vec::new();
    let mut first = labelled("\nDetailed Information for ", kernel.name.as_str());
    first.append(":");
    r.push(first);
    r.push(labelled("Variant: ", kernel.variant.label()));
    r.push(labelled("Description: ", kernel.description.as_str()));
    match details {
        None => {
            assert(views(r@) =~= detail_text(*kernel, None));
        },
        Some(d) => {
            r.push("\nAdditional Details:".to_owned());
            r.push(labelled("Version: ", d.version.as_str()));
            r.push(labelled("Architecture: ", d.architecture.as_str()));
            r.push(labelled("URL: ", d.url.as_str()));
            let ghost base = views(r@);
            if d.licenses.len() > 0 {
                r.push(labelled("Licenses: ", join_comma_strings(&d.licenses).as_str()));
            }
            let ghost b1 = views(r@);
            if d.provides.len() > 0 {
                r.push(labelled("Provides: ", join_comma_strings(&d.provides).as_str()));
            }
            let ghost b2 = views(r@);
            match &d.build_date {
                Some(b) => r.push(labelled("Build Date: ", b.as_str())),
                None => {},
            }
            let ghost b3 = views(r@);
            match &d.install_date {
                Some(i) => r.push(labelled("Install Date: ", i.as_str())),
                None => {},
            }
            proof {
                assert(b1 =~= base + line_if(
                    d.licenses@.len() > 0,
                    "Licenses: "@ + join_comma(views(d.licenses@)),
                ));
                assert(b2 =~= b1 + line_if(
                    d.provides@.len() > 0,
                    "Provides: "@ + join_comma(views(d.provides@)),
                ));
                assert(views(r@) =~= detail_text(*kernel, Some(*d)));
            }
        },
    }
    r
}

/// How many recommendations are shown.
pub const TOP_RECOMMENDATIONS: usize = 3;

/// The lines of the recommendations at the given positions, ranked from 1.
pub open spec fn rendered(
    scored: Seq<ScoredKernel>,
    positions: Seq<usize>,
    pm: Option<PackageManager>,
    use_cases: Seq<Seq<char>>,
) -> Seq<Seq<char>>
    decreases positions.len(),
{
    if positions.len() == 0 {
        Seq::empty()
    } else {
        rendered(scored, positions.drop_last(), pm, use_cases) + recommendation_text(
            positions.len(),
            scored[positions.last() as int],
            pm,
            use_cases,
        )
    }
}

/// The rendered top recommendations: the best three scored candidates
/// (ties in catalog order), each with its lines.
pub fn recommendations(
    scored: &Vec<ScoredKernel>,
    pm: Option<PackageManager>,
    use_cases: &Vec<String>,
) -> (r: Vec<String>)
    ensures
        exists|order: Seq<usize>|
            is_ranking(scored@.map_values(|s: ScoredKernel| s.score), order) && views(r@)
                == rendered(
                scored@,
                order.take(
                    if TOP_RECOMMENDATIONS < order.len() {
                        TOP_RECOMMENDATIONS as int
                    } else {
                        order.len() as int
                    },
                ),
                pm,
                views(use_cases@),
            ),
{
    let top = top_positions(scored, TOP_RECOMMENDATIONS);
    let ghost order = choose|order: Seq<usize>|
        is_ranking(scored@.map_values(|s: ScoredKernel| s.score), order) && top@ == order.take(
            if TOP_RECOMMENDATIONS < order.len() {
                TOP_RECOMMENDATIONS as int
            } else {
                order.len() as int
            },
        );
    assert(top@.len() <= 3);
    assert forall|k: int| 0 <= k < top@.len() implies #[trigger] top@[k] < scored@.len() by {
        assert(top@[k] == order[k]);
    }
    let mut r: Vec<String> = Vec::new();
    let mut i: usize = 0;
    assert(views(r@) =~= rendered(scored@, top@.take(0), pm, views(use_cases@)));
    while i < top.len()
        invariant
            i <= top@.len() <= 3,
            forall|k: int| 0 <= k < top@.len() ==> #[trigger] top@[k] < scored@.len(),
            views(r@) == rendered(scored@, top@.take(i as int), pm, views(use_cases@)),
        decreases top.len() - i,
    {
        let lines = recommendation_lines((i + 1) as u64, &scored[top[i]], pm, use_cases);
        let ghost prev = r@;
        let mut j: usize = 0;
        while j < lines.len()
            invariant
                j <= lines@.len(),
                r@ == prev + lines@.take(j as int),
            decreases lines.len() - j,
        {
            r.push(lines[j].clone());
            j += 1;
            assert(r@ =~= prev + lines@.take(j as int));
        }
        assert(lines@.take(lines@.len() as int) =~= lines@);
        assert(views(r@) =~= views(prev) + views(lines@));
        assert(top@.take(i + 1).drop_last() =~= top@.take(i as int));
        i += 1;
    }
    assert(top@.take(top@.len() as int) =~= top@);
    r
}

} // verus!
