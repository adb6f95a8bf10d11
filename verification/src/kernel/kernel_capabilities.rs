//! System capabilities: what the kernel offers, decided from what the
//! system's files and environment report.
use vstd::prelude::*;
use vstd::string::StringSliceAdditionalSpecFns;
use vstd::utf8::encode_utf8;
use crate::text::{bool_text, push_bool};
use crate::scan::{contains_bytes, contains_seq, parse_u32_radix, parse_u32_spec, split_bytes, split_pieces};

verus! {

/// Represents the detected system capabilities
pub struct SystemCapabilities {
    pub io_uring_available: bool,
    pub ebpf_capable: bool,
    pub hugepages_available: bool,
    pub numa_supported: bool,
    pub simd_extensions: Vec<String>,
}

/// What the probes of the system found: whether kernel files exist, the
/// kernel version the environment names, and the text of `/proc/meminfo`
/// and `/proc/cpuinfo` when they could be read.
pub struct CapabilityProbes {
    pub io_uring_entry_exists: bool,
    pub kernel_version: Option<String>,
    pub bpf_fs_exists: bool,
    pub bpf_jit_entry_exists: bool,
    pub meminfo: Option<String>,
    pub cpuinfo: Option<String>,
    pub simd_extensions: Vec<String>,
}

/// io_uring needs Linux 5.1 or later: the version's first two
/// dot-separated parts read as decimal numbers `major.minor` with
/// `major > 5`, or `major == 5` and `minor >= 1`.
pub open spec fn version_supports_io_uring(v: Seq<u8>) -> bool {
    let parts = split_pieces(v, 46);
    &&& parts.len() >= 2
    &&& parse_u32_spec(parts[0], 10) is Some
    &&& parse_u32_spec(parts[1], 10) is Some
    &&& {
        let major = parse_u32_spec(parts[0], 10).unwrap();
        let minor = parse_u32_spec(parts[1], 10).unwrap();
        major > 5 || (major == 5 && minor >= 1)
    }
}

/// Whether a kernel version string names a kernel with io_uring.
pub fn kernel_version_supports_io_uring(version: &str) -> (r: bool)
    ensures
        r == version_supports_io_uring(version.spec_bytes()),
{
    let parts = split_bytes(version.as_bytes(), 46);
    proof {
        assert(parts@.map_values(|v: Vec<u8>| v@).len() == parts@.len());
    }
    if parts.len() < 2 {
        return false;
    }
    proof {
        assert(parts@[0]@ == split_pieces(version.spec_bytes(), 46)[0]);
        assert(parts@[1]@ == split_pieces(version.spec_bytes(), 46)[1]);
    }
    let major = parse_u32_radix(parts[0].as_slice(), 10);
    let minor = parse_u32_radix(parts[1].as_slice(), 10);
    match (major, minor) {
        (Some(major), Some(minor)) => major > 5 || (major == 5 && minor >= 1),
        _ => false,
    }
}

/// A report that was read and whose bytes contain those of `needle`.
pub open spec fn report_mentions(text: Option<String>, needle: Seq<u8>) -> bool {
    match text {
        Some(t) => contains_seq(encode_utf8(t@), needle),
        None => false,
    }
}

/// Texts joined with a separator between consecutive ones.
pub open spec fn joined(parts: Seq<Seq<char>>, sep: Seq<char>) -> Seq<char>
    decreases parts.len(),
{
    if parts.len() == 0 {
        Seq::empty()
    } else if parts.len() == 1 {
        parts[0]
    } else {
        joined(parts.drop_last(), sep) + sep + parts.last()
    }
}

/// The report of capabilities, line by line.
pub open spec fn report_spec(c: SystemCapabilities) -> Seq<Seq<char>> {
    seq![
        "System Capabilities:"@,
        "  io_uring:        "@ + bool_text(c.io_uring_available),
        "  eBPF:           "@ + bool_text(c.ebpf_capable),
        "  Hugepages:      "@ + bool_text(c.hugepages_available),
        "  NUMA:           "@ + bool_text(c.numa_supported),
        "  SIMD Extensions: "@ + joined(c.simd_extensions@.map_values(|s: String| s@), ", "@),
    ]
}

fn push_joined(s: &mut String, parts: &Vec<String>, sep: &str)
    ensures
        final(s)@ == old(s)@ + joined(parts@.map_values(|p: String| p@), sep@),
{
    let ghost views = parts@.map_values(|p: String| p@);
    let mut i: usize = 0;
    while i < parts.len()
        invariant
            i <= parts@.len(),
            views == parts@.map_values(|p: String| p@),
            s@ == old(s)@ + joined(views.take(i as int), sep@),
        decreases parts@.len() - i,
    {
        proof {
            let t = views.take(i + 1);
            assert(t.drop_last() =~= views.take(i as int));
            assert(t.last() == parts@[i as int]@);
            if i == 0 {
                assert(t.len() == 1);
                assert(views.take(0).len() == 0);
            }
        }
        if i > 0 {
            s.append(sep);
        }
        s.append(parts[i].as_str());
        i = i + 1;
    }
    proof {
        assert(views.take(parts@.len() as int) =~= views);
    }
}

impl SystemCapabilities {
    /// The report that is printed for debugging, one entry per line.
    pub fn report_lines(&self) -> (r: Vec<String>)
        ensures
            r@.map_values(|l: String| l@) == report_spec(*self),
    {
        let mut lines: Vec<String> = Vec::new();
        lines.push(String::from_str("System Capabilities:"));
        let mut l1 = String::from_str("  io_uring:        ");
        push_bool(&mut l1, self.io_uring_available);
        lines.push(l1);
        let mut l2 = String::from_str("  eBPF:           ");
        push_bool(&mut l2, self.ebpf_capable);
        lines.push(l2);
        let mut l3 = String::from_str("  Hugepages:      ");
        push_bool(&mut l3, self.hugepages_available);
        lines.push(l3);
        let mut l4 = String::from_str("  NUMA:           ");
        push_bool(&mut l4, self.numa_supported);
        lines.push(l4);
        let mut l5 = String::from_str("  SIMD Extensions: ");
        push_joined(&mut l5, &self.simd_extensions, ", ");
        lines.push(l5);
        assert(lines@.map_values(|l: String| l@) =~= report_spec(*self));
        lines
    }

    /// The capabilities the probes show: io_uring when its kernel entry
    /// exists and the kernel is 5.1 or later, eBPF when both the BPF file
    /// system and the JIT switch exist, huge pages when the memory report
    /// mentions `HugePages_Total`, NUMA when the CPU report mentions `numa`.
    pub fn from_probes(p: CapabilityProbes) -> (r: Self)
        ensures
            r.io_uring_available == (p.io_uring_entry_exists && match p.kernel_version {
                Some(v) => version_supports_io_uring(encode_utf8(v@)),
                None => false,
            }),
            r.ebpf_capable == (p.bpf_fs_exists && p.bpf_jit_entry_exists),
            r.hugepages_available == report_mentions(p.meminfo, "HugePages_Total".spec_bytes()),
            r.numa_supported == report_mentions(p.cpuinfo, "numa".spec_bytes()),
            r.simd_extensions@ == p.simd_extensions@,
    {
        let io_uring = p.io_uring_entry_exists && match &p.kernel_version {
            Some(v) => kernel_version_supports_io_uring(v.as_str()),
            None => false,
        };
        let hugepages = match &p.meminfo {
            Some(t) => contains_bytes(t.as_str().as_bytes(), "HugePages_Total".as_bytes()),
            None => false,
        };
        let numa = match &p.cpuinfo {
            Some(t) => contains_bytes(t.as_str().as_bytes(), "numa".as_bytes()),
            None => false,
        };
        SystemCapabilities {
            io_uring_available: io_uring,
            ebpf_capable: p.bpf_fs_exists && p.bpf_jit_entry_exists,
            hugepages_available: hugepages,
            numa_supported: numa,
            simd_extensions: p.simd_extensions,
        }
    }
}

} // verus!
