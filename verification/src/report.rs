//! The report itself: the memory and OS values as printed, the set of
//! collected facts, and the fixed-order sequence of labeled lines.

use vstd::prelude::*;
use vstd::string::StringExecFns;
use crate::meminfo::MemStats;
use crate::render::render_identity;
use crate::render::render_line_bold;
use crate::render::value_or_unknown;
use crate::style::framed;
use crate::style::no_escape;
use crate::units::gib_hundredths;
use crate::units::gib_hundredths_u64;
use crate::units::one_dec_str;
use crate::units::percent_tenths;
use crate::units::percent_tenths_u64;
use crate::units::render_one_dec;
use crate::units::render_two_dec;
use crate::units::render_uptime;
use crate::units::two_dec_str;
use crate::units::uptime_str;

verus! {

/// The memory value as printed: used and total converted to hundredths of a
/// gibibyte and shown with two decimals, then the used share in tenths of a
/// percent with one decimal.
pub open spec fn mem_value_str(m: MemStats) -> Seq<char> {
    two_dec_str(gib_hundredths(m.spec_used_kib())) + " GiB / "@ + two_dec_str(
        gib_hundredths(m.total_kib as nat),
    ) + " GiB ("@ + one_dec_str(percent_tenths(m.spec_used_kib(), m.total_kib as nat)) + "%)"@
}

pub fn render_mem_value(m: &MemStats) -> (r: String)
    requires
        m.wf(),
    ensures
        r@ == mem_value_str(*m),
{
    let used = m.used_kib();
    let used_h = gib_hundredths_u64(used);
    let total_h = gib_hundredths_u64(m.total_kib);
    let tenths = percent_tenths_u64(used, m.total_kib);
    let mut r = render_two_dec(used_h);
    r.append(" GiB / ");
    let t = render_two_dec(total_h);
    r.append(t.as_str());
    r.append(" GiB (");
    let p = render_one_dec(tenths);
    r.append(p.as_str());
    r.append("%)");
    proof {
        assert(r@ =~= mem_value_str(*m));
    }
    r
}

/// The OS value as printed: the distribution name, then the architecture in
/// parentheses.
pub open spec fn os_value_str(distro: Seq<char>, arch: Seq<char>) -> Seq<char> {
    distro + " ("@ + arch + ")"@
}

pub fn render_os_value(distro: &str, arch: &str) -> (r: String)
    ensures
        r@ == os_value_str(distro@, arch@),
{
    let mut r = distro.to_owned();
    r.append(" (");
    r.append(arch);
    r.append(")");
    proof {
        assert(r@ =~= os_value_str(distro@, arch@));
    }
    r
}

/// What an optional fact shows: its value, or the shared fallback `Unknown`.
pub open spec fn shown(v: Option<String>) -> Seq<char> {
    match v {
        Some(s) => s@,
        None => "Unknown"@,
    }
}

/// The facts one run collects. Every collector that can fail is optional; an
/// absent value prints as `Unknown` and never aborts the report.
pub struct Facts {
    pub username: String,
    pub hostname: Option<String>,
    pub kernel: Option<String>,
    pub distro: String,
    pub arch: String,
    pub cpu: Option<String>,
    pub shell: Option<String>,
    pub desktop: Option<String>,
    pub uptime_secs: u64,
    pub memory: Option<MemStats>,
}

impl Facts {
    /// A held memory snapshot satisfies the snapshot invariant.
    pub open spec fn wf(self) -> bool {
        match self.memory {
            Some(m) => m.wf(),
            None => true,
        }
    }
}

/// The whole report, in its fixed order: identity, Kernel, OS, CPU, Shell,
/// DE/WM, Uptime, Memory. Labels are emphasized and the identity line is
/// emphasized as a whole; every absent fact shows as `Unknown`, and an
/// absent memory snapshot yields the exact line `Memory: Unknown`.
pub fn render_report(f: Facts) -> (r: Vec<String>)
    requires
        f.wf(),
    ensures
        r@.len() == 8,
        no_escape(f.username@) && no_escape(shown(f.hostname)) ==> framed(
            r@[0]@,
            f.username@ + "@"@ + shown(f.hostname),
        ),
        exists|b: Seq<char>| #[trigger] framed(b, "Kernel"@) && r@[1]@ == b + ": "@ + shown(
            f.kernel,
        ),
        exists|b: Seq<char>| #[trigger] framed(b, "OS"@) && r@[2]@ == b + ": "@ + os_value_str(
            f.distro@,
            f.arch@,
        ),
        exists|b: Seq<char>| #[trigger] framed(b, "CPU"@) && r@[3]@ == b + ": "@ + shown(f.cpu),
        exists|b: Seq<char>| #[trigger] framed(b, "Shell"@) && r@[4]@ == b + ": "@ + shown(
            f.shell,
        ),
        exists|b: Seq<char>| #[trigger] framed(b, "DE/WM"@) && r@[5]@ == b + ": "@ + shown(
            f.desktop,
        ),
        exists|b: Seq<char>| #[trigger] framed(b, "Uptime"@) && r@[6]@ == b + ": "@ + uptime_str(
            f.uptime_secs,
        ),
        match f.memory {
            Some(m) => exists|b: Seq<char>| #[trigger] framed(b, "Memory"@) && r@[7]@ == b + ": "@
                + mem_value_str(m),
            None => r@[7]@ == "Memory: Unknown"@,
        },
{
    let mut r: Vec<String> = Vec::new();
    let host = value_or_unknown(f.hostname);
    let id = render_identity(f.username.as_str(), host.as_str());
    r.push(id);
    let kernel = value_or_unknown(f.kernel);
    proof {
        assert(no_escape("Kernel"@)) by {
            reveal_strlit("Kernel");
        }
        assert(no_escape("OS"@)) by {
            reveal_strlit("OS");
        }
        assert(no_escape("CPU"@)) by {
            reveal_strlit("CPU");
        }
        assert(no_escape("Shell"@)) by {
            reveal_strlit("Shell");
        }
        assert(no_escape("DE/WM"@)) by {
            reveal_strlit("DE/WM");
        }
        assert(no_escape("Uptime"@)) by {
            reveal_strlit("Uptime");
        }
        assert(no_escape("Memory"@)) by {
            reveal_strlit("Memory");
        }
    }
    r.push(render_line_bold("Kernel", kernel.as_str()));
    let os = render_os_value(f.distro.as_str(), f.arch.as_str());
    r.push(render_line_bold("OS", os.as_str()));
    let cpu = value_or_unknown(f.cpu);
    r.push(render_line_bold("CPU", cpu.as_str()));
    let shell = value_or_unknown(f.shell);
    r.push(render_line_bold("Shell", shell.as_str()));
    let desktop = value_or_unknown(f.desktop);
    r.push(render_line_bold("DE/WM", desktop.as_str()));
    let uptime = render_uptime(f.uptime_secs);
    r.push(render_line_bold("Uptime", uptime.as_str()));
    match f.memory {
        Some(m) => {
            let mem = render_mem_value(&m);
            r.push(render_line_bold("Memory", mem.as_str()));
        },
        None => {
            r.push("Memory: Unknown".to_owned());
        },
    }
    r
}

} // verus!
