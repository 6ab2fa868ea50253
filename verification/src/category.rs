//! Workload category classification.
//!
//! A container's name is mapped to an optional category by matching a fixed
//! set of substring markers, one per category. The classification is a pure
//! function of the name alone: a name matching no marker yields no category,
//! and such a container is excluded from grouping and removal entirely.

use vstd::prelude::*;

use crate::text::{contains_seq, str_contains};

verus! {

/// The closed set of workload categories.
#[derive(Clone, Copy, Debug, PartialEq, Eq, Structural)]
pub enum Category {
    Ram,
    Cpu,
    Io,
    Disk,
}

/// The substring marker that identifies a category in a container name.
pub open spec fn spec_marker(c: Category) -> Seq<char> {
    match c {
        Category::Ram => "stress_ram"@,
        Category::Cpu => "stress_cpu"@,
        Category::Io => "stress_io"@,
        Category::Disk => "stress_disk"@,
    }
}

/// The short label a category is reported under.
pub open spec fn spec_label(c: Category) -> Seq<char> {
    match c {
        Category::Ram => "ram"@,
        Category::Cpu => "cpu"@,
        Category::Io => "io"@,
        Category::Disk => "disk"@,
    }
}

/// Classification of a name: the first category, in the fixed order
/// ram, cpu, io, disk, whose marker occurs in the name; `None` if no
/// marker occurs.
pub open spec fn spec_classify(name: Seq<char>) -> Option<Category> {
    if contains_seq(name, spec_marker(Category::Ram)) {
        Some(Category::Ram)
    } else if contains_seq(name, spec_marker(Category::Cpu)) {
        Some(Category::Cpu)
    } else if contains_seq(name, spec_marker(Category::Io)) {
        Some(Category::Io)
    } else if contains_seq(name, spec_marker(Category::Disk)) {
        Some(Category::Disk)
    } else {
        None
    }
}

/// Classify a container name into its workload category.
pub fn clasificar_contenedor(name: &str) -> (r: Option<Category>)
    ensures
        r == spec_classify(name@),
{
    if str_contains(name, "stress_ram") {
        Some(Category::Ram)
    } else if str_contains(name, "stress_cpu") {
        Some(Category::Cpu)
    } else if str_contains(name, "stress_io") {
        Some(Category::Io)
    } else if str_contains(name, "stress_disk") {
        Some(Category::Disk)
    } else {
        None
    }
}

/// Classify a container name and report the category's short label, or
/// nothing for a name that matches no marker.
pub fn extract_label_from_name(name: &str) -> (r: Option<&str>)
    ensures
        r is Some <==> spec_classify(name@) is Some,
        r matches Some(l) ==> spec_classify(name@) matches Some(c) && l@ == spec_label(c),
{
    match clasificar_contenedor(name) {
        Some(Category::Ram) => Some("ram"),
        Some(Category::Cpu) => Some("cpu"),
        Some(Category::Io) => Some("io"),
        Some(Category::Disk) => Some("disk"),
        None => None,
    }
}

/// Classification is deterministic: it depends on the characters of the
/// name alone, so two names that read the same classify the same.
pub proof fn lemma_classify_pure(a: &str, b: &str)
    requires
        a@ == b@,
    ensures
        spec_classify(a@) == spec_classify(b@),
{
}

} // verus!
