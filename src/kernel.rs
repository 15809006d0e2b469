//! Kernel candidates and their variant classification.

use vstd::prelude::*;
use crate::text::{chars_of, contains, contains_exec, lower, lower_chars};

verus! {

/// Coarse classification of a kernel package.
#[derive(Clone, Copy, Debug, PartialEq, Eq, Structural)]
pub enum KernelVariant {
    Standard,
    Lts,
    Zen,
    RealTime,
    Hardened,
    Mainline,
}

impl KernelVariant {
    /// The label shown to users.
    pub fn label(&self) -> (r: &'static str)
        ensures
            r@ == variant_label(*self),
    {
        match self {
            KernelVariant::Standard => "Standard",
            KernelVariant::Lts => "LTS",
            KernelVariant::Zen => "Zen",
            KernelVariant::RealTime => "Real-Time",
            KernelVariant::Hardened => "Hardened",
            KernelVariant::Mainline => "Mainline",
        }
    }
}

pub open spec fn variant_label(v: KernelVariant) -> Seq<char> {
    match v {
        KernelVariant::Standard => "Standard"@,
        KernelVariant::Lts => "LTS"@,
        KernelVariant::Zen => "Zen"@,
        KernelVariant::RealTime => "Real-Time"@,
        KernelVariant::Hardened => "Hardened"@,
        KernelVariant::Mainline => "Mainline"@,
    }
}

/// Variant of a kernel name: a case-insensitive substring test in the order
/// real-time ("rt" or "real"), LTS, Zen, hardened, mainline, else standard.
pub open spec fn variant_of(name: Seq<char>) -> KernelVariant {
    let l = lower(name);
    if contains(l, "rt"@) || contains(l, "real"@) {
        KernelVariant::RealTime
    } else if contains(l, "lts"@) {
        KernelVariant::Lts
    } else if contains(l, "zen"@) {
        KernelVariant::Zen
    } else if contains(l, "hardened"@) {
        KernelVariant::Hardened
    } else if contains(l, "mainline"@) {
        KernelVariant::Mainline
    } else {
        KernelVariant::Standard
    }
}

/// Classifies a kernel by its name.
pub fn detect_kernel_variant(name: &str) -> (r: KernelVariant)
    ensures
        r == variant_of(name@),
{
    let l = lower_chars(&chars_of(name));
    if contains_exec(&l, &chars_of("rt")) || contains_exec(&l, &chars_of("real")) {
        KernelVariant::RealTime
    } else if contains_exec(&l, &chars_of("lts")) {
        KernelVariant::Lts
    } else if contains_exec(&l, &chars_of("zen")) {
        KernelVariant::Zen
    } else if contains_exec(&l, &chars_of("hardened")) {
        KernelVariant::Hardened
    } else if contains_exec(&l, &chars_of("mainline")) {
        KernelVariant::Mainline
    } else {
        KernelVariant::Standard
    }
}

/// A kernel package, installed or available.
#[derive(Clone, Debug)]
pub struct KernelInfo {
    pub name: String,
    pub version: String,
    pub description: String,
    pub variant: KernelVariant,
    pub installed: bool,
}

impl KernelInfo {
    /// A field-by-field copy.
    pub fn duplicate(&self) -> (r: KernelInfo)
        ensures
            r == *self,
    {
        KernelInfo {
            name: self.name.clone(),
            version: self.version.clone(),
            description: self.description.clone(),
            variant: self.variant,
            installed: self.installed,
        }
    }
}

} // verus!
