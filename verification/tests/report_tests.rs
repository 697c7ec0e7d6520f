use sysfetch::cpuinfo::parse_cpu_model;
use sysfetch::digits::u64_to_dec;
use sysfetch::meminfo::parse_meminfo;
use sysfetch::render::render_identity;
use sysfetch::render::render_line_bold;
use sysfetch::render::value_or_unknown;
use sysfetch::report::render_os_value;
use sysfetch::report::render_report;
use sysfetch::report::Facts;
use sysfetch::units::render_uptime;

#[test]
fn uptime_one_hour_two_minutes() {
    assert_eq!(render_uptime(3725), "1 hours, 2 minutes");
}

#[test]
fn uptime_under_a_minute() {
    assert_eq!(render_uptime(59), "0 hours, 0 minutes");
}

#[test]
fn uptime_just_under_a_day() {
    assert_eq!(render_uptime(86399), "23 hours, 59 minutes");
}

#[test]
fn decimal_rendering() {
    assert_eq!(u64_to_dec(0), "0");
    assert_eq!(u64_to_dec(42), "42");
    assert_eq!(u64_to_dec(18446744073709551615), "18446744073709551615");
}

#[test]
fn os_value_format() {
    assert_eq!(render_os_value("Arch Linux", "x86_64"), "Arch Linux (x86_64)");
}

#[test]
fn fallback_value() {
    assert_eq!(value_or_unknown(Some(String::from("zsh"))), "zsh");
    assert_eq!(value_or_unknown(None), "Unknown");
}

#[test]
fn labeled_line_keeps_label_and_value() {
    let line = render_line_bold("Kernel", "6.1.0");
    assert!(line.contains("Kernel"));
    assert!(line.ends_with(": 6.1.0"));
}

#[test]
fn labels_are_styled_when_colour_is_forced() {
    colored::control::set_override(true);
    let line = render_line_bold("Kernel", "6.1.0");
    colored::control::unset_override();
    assert!(line.contains("\x1b[1mKernel\x1b[0m"));
    assert!(line.ends_with(": 6.1.0"));
}

#[test]
fn identity_line_keeps_user_and_host() {
    let line = render_identity("user", "host");
    assert!(line.contains("user@host"));
}

#[test]
fn cpu_model_first_record() {
    let input = b"processor\t: 0\nmodel name\t: Example CPU 9000\nflags\t: fpu\nmodel name\t: Other\n";
    let model = parse_cpu_model(input).expect("model expected");
    assert_eq!(model, b"Example CPU 9000".to_vec());
}

#[test]
fn cpu_model_space_separated() {
    let input = b"model name : Example CPU\n";
    assert_eq!(parse_cpu_model(input).unwrap(), b"Example CPU".to_vec());
}

#[test]
fn cpu_model_absent() {
    assert!(parse_cpu_model(b"processor : 0\nflags : fpu\n").is_none());
    assert!(parse_cpu_model(b"").is_none());
}

#[test]
fn cpu_model_line_without_colon() {
    assert!(parse_cpu_model(b"model name Example\n").is_none());
}

fn all_facts() -> Facts {
    Facts {
        username: String::from("user"),
        hostname: Some(String::from("host")),
        kernel: Some(String::from("6.1.0")),
        distro: String::from("Arch Linux"),
        arch: String::from("x86_64"),
        cpu: Some(String::from("Example CPU")),
        shell: Some(String::from("/bin/zsh")),
        desktop: Some(String::from("sway")),
        uptime_secs: 3725,
        memory: parse_meminfo(b"MemTotal: 16384000 kB\nMemAvailable: 8192000 kB\n"),
    }
}

#[test]
fn report_has_fixed_order() {
    let lines = render_report(all_facts());
    assert_eq!(lines.len(), 8);
    assert!(lines[0].contains("user@host"));
    assert!(lines[1].contains("Kernel") && lines[1].ends_with(": 6.1.0"));
    assert!(lines[2].contains("OS") && lines[2].ends_with(": Arch Linux (x86_64)"));
    assert!(lines[3].contains("CPU") && lines[3].ends_with(": Example CPU"));
    assert!(lines[4].contains("Shell") && lines[4].ends_with(": /bin/zsh"));
    assert!(lines[5].contains("DE/WM") && lines[5].ends_with(": sway"));
    assert!(lines[6].contains("Uptime") && lines[6].ends_with(": 1 hours, 2 minutes"));
    assert!(lines[7].contains("Memory") && lines[7].ends_with(": 7.81 GiB / 15.63 GiB (50.0%)"));
}

#[test]
fn absent_memory_line_is_exact() {
    let mut facts = all_facts();
    facts.memory = None;
    let lines = render_report(facts);
    assert_eq!(lines[7], "Memory: Unknown");
}

#[test]
fn failed_facts_degrade_alone() {
    let mut facts = all_facts();
    facts.kernel = None;
    facts.shell = None;
    let lines = render_report(facts);
    assert_eq!(lines.len(), 8);
    assert!(lines[1].ends_with(": Unknown"));
    assert!(lines[4].ends_with(": Unknown"));
    assert!(lines[6].ends_with(": 1 hours, 2 minutes"));
    assert!(lines[7].ends_with(": 7.81 GiB / 15.63 GiB (50.0%)"));
}

#[test]
fn missing_hostname_degrades_identity() {
    let mut facts = all_facts();
    facts.hostname = None;
    let lines = render_report(facts);
    assert!(lines[0].contains("user@Unknown"));
}
