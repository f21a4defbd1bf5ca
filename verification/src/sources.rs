//! The per-tool source adapters and their dispatch by tool name.

use vstd::prelude::*;

pub mod apt;
pub mod brew;
pub mod cargo;
pub mod docker;
pub mod go;
pub mod kv;
pub mod npm;
pub mod pip;

use crate::error::MirrorError;
use crate::sources::apt::AptManager;
use crate::sources::brew::BrewManager;
use crate::sources::cargo::CargoManager;
use crate::sources::docker::DockerManager;
use crate::sources::go::GoManager;
use crate::sources::npm::NpmManager;
use crate::sources::pip::PipManager;
use crate::text::chars_of;

verus! {

/// `c` with an ASCII capital letter folded to its small form; any other
/// character is kept.
pub open spec fn lower_char_spec(c: char) -> char {
    if c == 'A' {
        'a'
    } else if c == 'B' {
        'b'
    } else if c == 'C' {
        'c'
    } else if c == 'D' {
        'd'
    } else if c == 'E' {
        'e'
    } else if c == 'F' {
        'f'
    } else if c == 'G' {
        'g'
    } else if c == 'H' {
        'h'
    } else if c == 'I' {
        'i'
    } else if c == 'J' {
        'j'
    } else if c == 'K' {
        'k'
    } else if c == 'L' {
        'l'
    } else if c == 'M' {
        'm'
    } else if c == 'N' {
        'n'
    } else if c == 'O' {
        'o'
    } else if c == 'P' {
        'p'
    } else if c == 'Q' {
        'q'
    } else if c == 'R' {
        'r'
    } else if c == 'S' {
        's'
    } else if c == 'T' {
        't'
    } else if c == 'U' {
        'u'
    } else if c == 'V' {
        'v'
    } else if c == 'W' {
        'w'
    } else if c == 'X' {
        'x'
    } else if c == 'Y' {
        'y'
    } else if c == 'Z' {
        'z'
    } else {
        c
    }
}

/// `s` with its ASCII capital letters folded to small form.  Tool names are
/// matched under this folding.
pub open spec fn ascii_lower(s: Seq<char>) -> Seq<char> {
    s.map_values(|c: char| lower_char_spec(c))
}

fn lower_char(c: char) -> (r: char)
    ensures
        r == lower_char_spec(c),
{
    match c {
        'A' => 'a',
        'B' => 'b',
        'C' => 'c',
        'D' => 'd',
        'E' => 'e',
        'F' => 'f',
        'G' => 'g',
        'H' => 'h',
        'I' => 'i',
        'J' => 'j',
        'K' => 'k',
        'L' => 'l',
        'M' => 'm',
        'N' => 'n',
        'O' => 'o',
        'P' => 'p',
        'Q' => 'q',
        'R' => 'r',
        'S' => 's',
        'T' => 't',
        'U' => 'u',
        'V' => 'v',
        'W' => 'w',
        'X' => 'x',
        'Y' => 'y',
        'Z' => 'z',
        other => other,
    }
}

pub(crate) fn ascii_lower_exec(v: &Vec<char>) -> (r: Vec<char>)
    ensures
        r@ == ascii_lower(v@),
{
    let mut r: Vec<char> = Vec::new();
    let mut i: usize = 0;
    while i < v.len()
        invariant
            i <= v@.len(),
            r@.len() == i,
            forall|j: int| 0 <= j < i ==> r@[j] == lower_char_spec(v@[j]),
        decreases v@.len() - i,
    {
        r.push(lower_char(v[i]));
        i += 1;
    }
    proof {
        assert(r@ =~= ascii_lower(v@));
    }
    r
}

/// One of the seven source adapters, chosen by tool name.
#[derive(Debug)]
pub enum Manager {
    Pip(PipManager),
    Npm(NpmManager),
    Docker(DockerManager),
    Go(GoManager),
    Cargo(CargoManager),
    Brew(BrewManager),
    Apt(AptManager),
}

/// The adapter for the tool called `name`, matched after ASCII case
/// folding; an unsupported name is a distinct error naming the supported
/// tools.
pub fn get_manager(name: &str) -> (r: Result<Manager, MirrorError>)
    ensures
        ({
            let key = ascii_lower(name@);
            match r {
                Ok(m) => match m {
                    Manager::Pip(p) => key == "pip"@ && p.custom_path is None,
                    Manager::Npm(p) => key == "npm"@ && p.custom_path is None,
                    Manager::Docker(_) => key == "docker"@,
                    Manager::Go(_) => key == "go"@,
                    Manager::Cargo(p) => key == "cargo"@ && p.custom_path is None,
                    Manager::Brew(_) => key == "brew"@,
                    Manager::Apt(a) => key == "apt"@ && a.distro@ == "ubuntu"@ && a.custom_path
                        is None,
                },
                Err(e) => {
                    &&& key != "pip"@
                    &&& key != "npm"@
                    &&& key != "docker"@
                    &&& key != "go"@
                    &&& key != "cargo"@
                    &&& key != "brew"@
                    &&& key != "apt"@
                    &&& (e matches MirrorError::UnknownTool(s) && s@ == "Unsupported tool: '"@
                        + name@ + "'. Available: pip, npm, docker, go, cargo, brew, apt"@)
                },
            }
        }),
{
    let nv = chars_of(name);
    let key = ascii_lower_exec(&nv);
    if kv::chars_eq(&key, &chars_of("pip")) {
        Ok(Manager::Pip(PipManager::new()))
    } else if kv::chars_eq(&key, &chars_of("docker")) {
        Ok(Manager::Docker(DockerManager::new()))
    } else if kv::chars_eq(&key, &chars_of("npm")) {
        Ok(Manager::Npm(NpmManager::new()))
    } else if kv::chars_eq(&key, &chars_of("go")) {
        Ok(Manager::Go(GoManager::new()))
    } else if kv::chars_eq(&key, &chars_of("cargo")) {
        Ok(Manager::Cargo(CargoManager::new()))
    } else if kv::chars_eq(&key, &chars_of("brew")) {
        Ok(Manager::Brew(BrewManager::new()))
    } else if kv::chars_eq(&key, &chars_of("apt")) {
        Ok(Manager::Apt(AptManager::new()))
    } else {
        let mut m = String::from_str("Unsupported tool: '");
        m.append(name);
        m.append("'. Available: pip, npm, docker, go, cargo, brew, apt");
        Err(MirrorError::UnknownTool(m))
    }
}

} // verus!
