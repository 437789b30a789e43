use vstd::prelude::*;

verus! {

/// The package ecosystems monochange manages.
#[derive(Clone, Copy, Debug, PartialEq, Eq, Structural)]
pub enum Ecosystem {
    Cargo,
    Npm,
    Deno,
    Dart,
    Python,
    Go,
}

/// Position of an ecosystem in the declared order, which orders package identities.
pub open spec fn ecosystem_rank(e: Ecosystem) -> nat {
    match e {
        Ecosystem::Cargo => 0,
        Ecosystem::Npm => 1,
        Ecosystem::Deno => 2,
        Ecosystem::Dart => 3,
        Ecosystem::Python => 4,
        Ecosystem::Go => 5,
    }
}

/// The variant name, as `Debug` prints it.
pub open spec fn ecosystem_debug_name(e: Ecosystem) -> Seq<char> {
    match e {
        Ecosystem::Cargo => "Cargo"@,
        Ecosystem::Npm => "Npm"@,
        Ecosystem::Deno => "Deno"@,
        Ecosystem::Dart => "Dart"@,
        Ecosystem::Python => "Python"@,
        Ecosystem::Go => "Go"@,
    }
}

/// The ecosystem's name as configuration and messages write it.
pub open spec fn ecosystem_name(e: Ecosystem) -> Seq<char> {
    match e {
        Ecosystem::Cargo => "cargo"@,
        Ecosystem::Npm => "npm"@,
        Ecosystem::Deno => "deno"@,
        Ecosystem::Dart => "dart"@,
        Ecosystem::Python => "python"@,
        Ecosystem::Go => "go"@,
    }
}

impl Ecosystem {
    /// The ecosystem's name as configuration and messages write it.
    pub fn as_str(&self) -> (r: &'static str)
        ensures
            r@ == ecosystem_name(*self),
    {
        match self {
            Ecosystem::Cargo => "cargo",
            Ecosystem::Npm => "npm",
            Ecosystem::Deno => "deno",
            Ecosystem::Dart => "dart",
            Ecosystem::Python => "python",
            Ecosystem::Go => "go",
        }
    }

    /// Position in the declared order.
    pub fn rank(&self) -> (r: u8)
        ensures
            r as nat == ecosystem_rank(*self),
    {
        match self {
            Ecosystem::Cargo => 0,
            Ecosystem::Npm => 1,
            Ecosystem::Deno => 2,
            Ecosystem::Dart => 3,
            Ecosystem::Python => 4,
            Ecosystem::Go => 5,
        }
    }

    /// The variant name, as `Debug` prints it.
    pub fn debug_name(&self) -> (r: &'static str)
        ensures
            r@ == ecosystem_debug_name(*self),
    {
        match self {
            Ecosystem::Cargo => "Cargo",
            Ecosystem::Npm => "Npm",
            Ecosystem::Deno => "Deno",
            Ecosystem::Dart => "Dart",
            Ecosystem::Python => "Python",
            Ecosystem::Go => "Go",
        }
    }
}

} // verus!
