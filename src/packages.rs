//! Decisions of the package check: what a package manager's output says
//! about orphaned packages and pending updates.

use vstd::prelude::*;
use crate::context::PackageManager;
use crate::text::{
    char_views, chars_of, contains, lines_of, split_lines, str_contains, string_of, trim,
    trimmed, views,
};

verus! {

/// The orphan query printed something beyond white space, or for apt and
/// emerge, the text that marks removable packages.
pub open spec fn orphans_found_of(pm: PackageManager, output: Seq<char>) -> bool {
    match pm {
        PackageManager::Apt => contains(output, "The following packages will be REMOVED:"@),
        PackageManager::Emerge => !contains(output, "Nothing to clean"@),
        _ => trim(output).len() > 0,
    }
}

/// Whether an orphan query's output reports orphaned packages.
pub fn orphans_found(pm: PackageManager, output: &str) -> (r: bool)
    ensures
        r == orphans_found_of(pm, output@),
{
    match pm {
        PackageManager::Apt => str_contains(output, "The following packages will be REMOVED:"),
        PackageManager::Emerge => !str_contains(output, "Nothing to clean"),
        _ => {
            let v = chars_of(output);
            let t = trimmed(&v, 0, v.len());
            assert(v@.subrange(0, v@.len() as int) =~= v@);
            t.len() > 0
        },
    }
}

/// The update query reports pending updates.
pub open spec fn updates_available_of(pm: PackageManager, output: Seq<char>) -> bool {
    match pm {
        PackageManager::Apt => lines_of(output).len() > 1,
        PackageManager::Dnf => contains(output, "Obsoleting Packages"@) || contains(
            output,
            "Last metadata expiration check"@,
        ),
        PackageManager::Zypper => !contains(output, "No updates found."@),
        PackageManager::Emerge => !contains(output, "Total: 0 packages"@),
        _ => trim(output).len() > 0,
    }
}

/// Whether an update query's output reports pending updates.
pub fn updates_available(pm: PackageManager, output: &str) -> (r: bool)
    ensures
        r == updates_available_of(pm, output@),
{
    match pm {
        PackageManager::Apt => split_lines(&chars_of(output)).len() > 1,
        PackageManager::Dnf => str_contains(output, "Obsoleting Packages") || str_contains(
            output,
            "Last metadata expiration check",
        ),
        PackageManager::Zypper => !str_contains(output, "No updates found."),
        PackageManager::Emerge => !str_contains(output, "Total: 0 packages"),
        _ => {
            let v = chars_of(output);
            let t = trimmed(&v, 0, v.len());
            assert(v@.subrange(0, v@.len() as int) =~= v@);
            t.len() > 0
        },
    }
}

pub open spec fn orphan_heading_of(pm: PackageManager) -> Seq<char> {
    match pm {
        PackageManager::Apt => "Orphaned packages detected (auto-removable):"@,
        PackageManager::Apk => "Potentially unneeded packages:"@,
        PackageManager::Emerge => "Orphaned packages (pretend):"@,
        _ => "Orphaned packages:"@,
    }
}

/// The heading shown above the orphaned packages.
pub fn orphan_heading(pm: PackageManager) -> (r: &'static str)
    ensures
        r@ == orphan_heading_of(pm),
{
    match pm {
        PackageManager::Apt => "Orphaned packages detected (auto-removable):",
        PackageManager::Apk => "Potentially unneeded packages:",
        PackageManager::Emerge => "Orphaned packages (pretend):",
        _ => "Orphaned packages:",
    }
}

/// The trimmed non-empty lines, in order.
pub open spec fn nonempty_trimmed(ls: Seq<Seq<char>>) -> Seq<Seq<char>>
    decreases ls.len(),
{
    if ls.len() == 0 {
        Seq::empty()
    } else {
        let e = nonempty_trimmed(ls.drop_last());
        if trim(ls.last()).len() > 0 {
            e.push(trim(ls.last()))
        } else {
            e
        }
    }
}

/// The package names listed one per line.
pub fn orphan_list(output: &str) -> (r: Vec<String>)
    ensures
        views(r@) == nonempty_trimmed(lines_of(output@)),
{
    let lines = split_lines(&chars_of(output));
    let mut r: Vec<String> = Vec::new();
    let mut i: usize = 0;
    assert(views(r@) =~= nonempty_trimmed(char_views(lines@).take(0)));
    while i < lines.len()
        invariant
            i <= lines.len(),
            char_views(lines@) == lines_of(output@),
            views(r@) == nonempty_trimmed(char_views(lines@).take(i as int)),
        decreases lines.len() - i,
    {
        let line = &lines[i];
        let ghost ls = char_views(lines@).take(i + 1);
        assert(ls.drop_last() =~= char_views(lines@).take(i as int));
        assert(ls.last() == line@);
        let t = trimmed(line, 0, line.len());
        assert(line@.subrange(0, line@.len() as int) =~= line@);
        if t.len() > 0 {
            let ghost prev = r@;
            let e = string_of(&t, 0, t.len());
            assert(t@.subrange(0, t@.len() as int) =~= t@);
            r.push(e);
            assert(views(r@) =~= views(prev).push(e@));
        }
        i += 1;
    }
    assert(char_views(lines@).take(lines.len() as int) =~= char_views(lines@));
    r
}

/// The answer is "y" or "Y", around white space.
pub open spec fn confirms_of(input: Seq<char>) -> bool {
    trim(input) == "y"@ || trim(input) == "Y"@
}

/// Whether the user's answer confirms removal.
pub fn confirms(input: &str) -> (r: bool)
    ensures
        r == confirms_of(input@),
{
    let v = chars_of(input);
    let t = trimmed(&v, 0, v.len());
    assert(v@.subrange(0, v@.len() as int) =~= v@);
    crate::text::chars_eq(&t, &chars_of("y")) || crate::text::chars_eq(&t, &chars_of("Y"))
}

} // verus!
