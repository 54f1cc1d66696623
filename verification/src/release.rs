//! Names of the release assets that the updater downloads.

use vstd::prelude::*;

verus! {

/// No release asset is built for this operating system and architecture.
pub struct UnsupportedTarget {
    pub os: String,
    pub arch: String,
}

impl UnsupportedTarget {
    /// "Auto-update is not supported on {os}-{arch}".
    pub fn message(&self) -> (m: String)
        ensures
            m@ == "Auto-update is not supported on "@ + self.os@ + "-"@ + self.arch@,
    {
        let mut m = String::from_str("Auto-update is not supported on ");
        m.append(self.os.as_str());
        m.append("-");
        m.append(self.arch.as_str());
        m
    }
}

/// The asset suffix of a supported target: Windows and Linux on x86_64 and
/// macOS on aarch64.
pub open spec fn asset_suffix(os: Seq<char>, arch: Seq<char>) -> Option<Seq<char>> {
    if os == "windows"@ && arch == "x86_64"@ {
        Some("-windows-x86_64.exe"@)
    } else if os == "macos"@ && arch == "aarch64"@ {
        Some("-macos-aarch64"@)
    } else if os == "linux"@ && arch == "x86_64"@ {
        Some("-linux-x86_64"@)
    } else {
        None
    }
}

fn same_text(a: &str, b: &str) -> (r: bool)
    ensures
        r == (a@ == b@),
{
    String::from_str(a) == String::from_str(b)
}

/// The name of the release asset for `os` and `arch` at version `version`
/// (its text, such as "0.1.5"): "antarian-chess-rs-{version}" and the
/// target's suffix, or an error for a target without a build.
pub fn release_asset_name_for(os: &str, arch: &str, version: &str) -> (r: Result<String, UnsupportedTarget>)
    ensures
        match asset_suffix(os@, arch@) {
            Some(suffix) => r matches Ok(name) && name@ == "antarian-chess-rs-"@ + version@ + suffix,
            None => r matches Err(e) && e.os@ == os@ && e.arch@ == arch@,
        },
{
    let suffix = if same_text(os, "windows") && same_text(arch, "x86_64") {
        "-windows-x86_64.exe"
    } else if same_text(os, "macos") && same_text(arch, "aarch64") {
        "-macos-aarch64"
    } else if same_text(os, "linux") && same_text(arch, "x86_64") {
        "-linux-x86_64"
    } else {
        return Err(UnsupportedTarget { os: String::from_str(os), arch: String::from_str(arch) });
    };
    let mut name = String::from_str("antarian-chess-rs-");
    name.append(version);
    name.append(suffix);
    Ok(name)
}

/// `s` with every single quote doubled, as PowerShell wants inside a
/// single-quoted string.
pub open spec fn doubled_quotes(s: Seq<char>) -> Seq<char>
    decreases s.len(),
{
    if s.len() == 0 {
        seq![]
    } else {
        doubled_quotes(s.drop_last()) + if s.last() == '\'' {
            seq!['\'', '\'']
        } else {
            seq![s.last()]
        }
    }
}

/// Quote a path for a single-quoted PowerShell string: every `'` becomes `''`.
pub fn powershell_escape(path: &str) -> (escaped: String)
    ensures
        escaped@ == doubled_quotes(path@),
{
    let n = path.unicode_len();
    let mut out = String::new();
    let mut i: usize = 0;
    proof {
        reveal_strlit("''");
        assert(path@.subrange(0, 0) =~= Seq::<char>::empty());
    }
    while i < n
        invariant
            n == path@.len(),
            i <= n,
            out@ == doubled_quotes(path@.subrange(0, i as int)),
            "''"@ == seq!['\'', '\''],
        decreases n - i,
    {
        let c = path.get_char(i);
        let ghost before = path@.subrange(0, i as int);
        if c == '\'' {
            out.append("''");
        } else {
            out.append(path.substring_char(i, i + 1));
        }
        proof {
            let after = path@.subrange(0, i + 1);
            assert(after.drop_last() =~= before);
            assert(after.last() == c);
            assert(path@.subrange(i as int, i + 1) =~= seq![c]);
        }
        i += 1;
    }
    proof {
        assert(path@.subrange(0, n as int) =~= path@);
    }
    out
}

} // verus!
