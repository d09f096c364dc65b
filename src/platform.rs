//! Target platforms and the package-manager installer each one takes.
use crate::text::{contains, has_infix, lowercase_of, to_lower};
use vstd::prelude::*;

verus! {

#[derive(Debug, Clone, Copy, PartialEq, Eq, Structural)]
pub enum Os {
    MacOS,
    Linux,
}

#[derive(Debug, Clone, Copy, PartialEq, Eq, Structural)]
pub enum Arch {
    X86_64,
    Aarch64,
}

/// Which distribution of the package manager to install.
#[derive(Debug, Clone, Copy, PartialEq, Eq, Structural)]
pub enum Backend {
    Upstream,
    Determinate,
}

#[derive(Debug, Clone, Copy, PartialEq, Eq, Structural)]
pub struct Platform {
    pub os: Os,
    pub arch: Arch,
    pub is_wsl: bool,
}

/// The package manager's name for a platform: `<arch>-<os>`.
pub open spec fn triple_of(os: Os, arch: Arch) -> Seq<char> {
    match (os, arch) {
        (Os::MacOS, Arch::X86_64) => "x86_64-darwin"@,
        (Os::MacOS, Arch::Aarch64) => "aarch64-darwin"@,
        (Os::Linux, Arch::X86_64) => "x86_64-linux"@,
        (Os::Linux, Arch::Aarch64) => "aarch64-linux"@,
    }
}

/// Where each backend publishes its installers.
pub open spec fn installer_base(backend: Backend) -> Seq<char> {
    match backend {
        Backend::Upstream => "https://github.com/NixOS/nix-installer/releases/latest/download/nix-installer-"@,
        Backend::Determinate => "https://install.determinate.systems/nix/nix-installer-"@,
    }
}

impl Platform {
    /// The platform's target triple.
    pub fn target_triple(&self) -> (r: &'static str)
        ensures
            r@ == triple_of(self.os, self.arch),
    {
        match (&self.os, &self.arch) {
            (Os::MacOS, Arch::X86_64) => "x86_64-darwin",
            (Os::MacOS, Arch::Aarch64) => "aarch64-darwin",
            (Os::Linux, Arch::X86_64) => "x86_64-linux",
            (Os::Linux, Arch::Aarch64) => "aarch64-linux",
        }
    }
}

impl Backend {
    /// The backend's name.
    pub fn name(&self) -> (r: &'static str)
        ensures
            r@ == match self {
                Backend::Upstream => "upstream"@,
                Backend::Determinate => "determinate"@,
            },
    {
        match self {
            Backend::Upstream => "upstream",
            Backend::Determinate => "determinate",
        }
    }

    /// The backend named `s`: `upstream` or `determinate`.
    pub fn parse(s: &str) -> (r: Result<Backend, String>)
        ensures
            s@ == "upstream"@ ==> r == Ok::<Backend, String>(Backend::Upstream),
            s@ == "determinate"@ ==> r == Ok::<Backend, String>(Backend::Determinate),
            s@ != "upstream"@ && s@ != "determinate"@ ==> r is Err,
    {
        proof {
            reveal_strlit("upstream");
            reveal_strlit("determinate");
            assert("upstream"@.len() != "determinate"@.len());
        }
        let owned = String::from_str(s);
        if owned == String::from_str("upstream") {
            Ok(Backend::Upstream)
        } else if owned == String::from_str("determinate") {
            Ok(Backend::Determinate)
        } else {
            let mut msg = String::from_str("unknown backend '");
            msg.append(s);
            msg.append("' (expected 'upstream' or 'determinate')");
            Err(msg)
        }
    }
}

impl std::str::FromStr for Backend {
    type Err = String;

    fn from_str(s: &str) -> Result<Backend, String> {
        Backend::parse(s)
    }
}

/// The backend that a configured name selects: the name given, or
/// `upstream` when the configuration names none.
pub fn backend_of(configured: Option<String>) -> (r: Result<Backend, String>)
    ensures
        match configured {
            Some(name) => (name@ == "upstream"@ ==> r == Ok::<Backend, String>(Backend::Upstream))
                && (name@ == "determinate"@ ==> r == Ok::<Backend, String>(Backend::Determinate))
                && (name@ != "upstream"@ && name@ != "determinate"@ ==> r is Err),
            None => r == Ok::<Backend, String>(Backend::Upstream),
        },
{
    match configured {
        Some(name) => Backend::parse(name.as_str()),
        None => Ok(Backend::Upstream),
    }
}

/// The download URL of the installer for `platform` from `backend`.
pub fn installer_url(platform: &Platform, backend: &Backend) -> (r: String)
    ensures
        r@ == installer_base(*backend) + triple_of(platform.os, platform.arch),
{
    let target = platform.target_triple();
    let mut url = match backend {
        Backend::Upstream => String::from_str(
            "https://github.com/NixOS/nix-installer/releases/latest/download/nix-installer-",
        ),
        Backend::Determinate => String::from_str("https://install.determinate.systems/nix/nix-installer-"),
    };
    url.append(target);
    url
}

/// Whether a kernel version string (`/proc/version`) is that of the
/// Windows Subsystem for Linux: its lowercase form mentions `microsoft` or
/// `wsl`.
pub open spec fn is_wsl_kernel(version: Seq<char>) -> bool {
    has_infix(lowercase_of(version), "microsoft"@) || has_infix(lowercase_of(version), "wsl"@)
}

/// Whether the kernel version string names the Windows Subsystem for Linux.
pub fn detect_wsl(proc_version: &str) -> (r: bool)
    ensures
        r == is_wsl_kernel(proc_version@),
{
    let lower = to_lower(proc_version);
    contains(lower.as_str(), "microsoft") || contains(lower.as_str(), "wsl")
}

/// The operating system that the compiler's name denotes.
pub open spec fn os_named(os: Seq<char>) -> Option<Os> {
    if os == "macos"@ {
        Some(Os::MacOS)
    } else if os == "linux"@ {
        Some(Os::Linux)
    } else {
        None
    }
}

/// The architecture that the compiler's name denotes.
pub open spec fn arch_named(arch: Seq<char>) -> Option<Arch> {
    if arch == "x86_64"@ {
        Some(Arch::X86_64)
    } else if arch == "aarch64"@ {
        Some(Arch::Aarch64)
    } else {
        None
    }
}

/// The platform that the compiler's names for the operating system and the
/// architecture denote, given the kernel version string when it could be
/// read. Any other system or architecture is unsupported.
pub fn detect(os: &str, arch: &str, proc_version: Option<&str>) -> (r: Result<Platform, String>)
    ensures
        match r {
            Ok(p) => os_named(os@) == Some(p.os) && arch_named(arch@) == Some(p.arch) && p.is_wsl == (
            p.os == Os::Linux && match proc_version {
                Some(v) => is_wsl_kernel(v@),
                None => false,
            }),
            Err(_) => os_named(os@) is None || arch_named(arch@) is None,
        },
{
    proof {
        reveal_strlit("macos");
        reveal_strlit("linux");
        reveal_strlit("x86_64");
        reveal_strlit("aarch64");
        assert("macos"@ != "linux"@ ) by {
            assert("macos"@[0] != "linux"@[0]);
        }
        assert("x86_64"@.len() != "aarch64"@.len());
    }
    let os_name = String::from_str(os);
    let arch_name = String::from_str(arch);
    let os_value = if os_name == String::from_str("macos") {
        Os::MacOS
    } else if os_name == String::from_str("linux") {
        Os::Linux
    } else {
        let mut msg = String::from_str("unsupported OS: ");
        msg.append(os);
        return Err(msg);
    };
    let arch_value = if arch_name == String::from_str("x86_64") {
        Arch::X86_64
    } else if arch_name == String::from_str("aarch64") {
        Arch::Aarch64
    } else {
        let mut msg = String::from_str("unsupported architecture: ");
        msg.append(arch);
        return Err(msg);
    };
    let is_wsl = match os_value {
        Os::Linux => match proc_version {
            Some(v) => detect_wsl(v),
            None => false,
        },
        Os::MacOS => false,
    };
    Ok(Platform { os: os_value, arch: arch_value, is_wsl })
}

/// Relies on std::path::Path::exists: whether something exists at the
/// path, as the file system says at the moment of the call.
#[verifier::external_body]
fn path_exists(path: &str) -> (r: bool) {
    std::path::Path::new(path).exists()
}

/// Whether the init system is systemd: its runtime directory exists.
pub fn has_systemd() -> (r: bool) {
    path_exists("/run/systemd/system")
}

} // verus!
