use crate::filter::{text_equal, utf8_text};
use crate::process::{split, split_bytes, views, Args};
use vstd::prelude::*;
use vstd::slice::slice_subrange;
use vstd::utf8::{decode_utf8, valid_utf8};

verus! {

/// What the container inspector reports of one container.
pub struct ContainerInfo {
    pub container_id: String,
    pub container_name: String,
    pub image_id: String,
    pub image_name: String,
}

impl ContainerInfo {
    /// A copy with the same four strings.
    pub fn duplicate(&self) -> (r: ContainerInfo)
        ensures
            r == *self,
    {
        ContainerInfo {
            container_id: self.container_id.clone(),
            container_name: self.container_name.clone(),
            image_id: self.image_id.clone(),
            image_name: self.image_name.clone(),
        }
    }
}

/// A copy of optional metadata.
pub fn duplicate_info(info: &Option<ContainerInfo>) -> (r: Option<ContainerInfo>)
    ensures
        r == *info,
{
    match info {
        Some(ci) => Some(ci.duplicate()),
        None => None,
    }
}

/// The path of the container supervisor.
pub const SUPERVISOR: &'static str = "/usr/bin/conmon";

/// Some value of `a` is also in `b`.
pub open spec fn common_member(a: Seq<u32>, b: Seq<u32>) -> bool {
    exists|i: int, j: int| 0 <= i < a.len() && 0 <= j < b.len() && a[i] == b[j]
}

pub fn have_common_member(a: &[u32], b: &[u32]) -> (r: bool)
    ensures
        r == common_member(a@, b@),
{
    let mut i: usize = 0;
    while i < a.len()
        invariant
            0 <= i <= a@.len(),
            forall|x: int, y: int| 0 <= x < i && 0 <= y < b@.len() ==> a@[x] != b@[y],
        decreases a@.len() - i,
    {
        let mut j: usize = 0;
        while j < b.len()
            invariant
                0 <= i < a@.len(),
                0 <= j <= b@.len(),
                forall|x: int, y: int| 0 <= x < i && 0 <= y < b@.len() ==> a@[x] != b@[y],
                forall|y: int| 0 <= y < j ==> a@[i as int] != b@[y],
            decreases b@.len() - j,
        {
            if a[i] == b[j] {
                return true;
            }
            j = j + 1;
        }
        i = i + 1;
    }
    false
}

/// The peers that are bound: unknown peers and zero are left out.
pub open spec fn bound_peers(results: Seq<Option<u32>>) -> Seq<u32>
    decreases results.len(),
{
    if results.len() == 0 {
        seq![]
    } else {
        let rest = bound_peers(results.drop_last());
        match results.last() {
            Some(p) => if p != 0 {
                rest.push(p)
            } else {
                rest
            },
            None => rest,
        }
    }
}

/// Collects the peer inodes of a process group's sockets, in order, from the
/// answers of the socket query (`None` where it failed).
pub fn collect_peers(results: &Vec<Option<u32>>) -> (r: Vec<u32>)
    ensures
        r@ == bound_peers(results@),
{
    let mut peers: Vec<u32> = Vec::new();
    let mut i: usize = 0;
    while i < results.len()
        invariant
            0 <= i <= results@.len(),
            peers@ == bound_peers(results@.take(i as int)),
        decreases results@.len() - i,
    {
        assert(results@.take(i as int + 1).drop_last() =~= results@.take(i as int));
        if let Some(p) = results[i] {
            if p != 0 {
                peers.push(p);
            }
        }
        i = i + 1;
    }
    assert(results@.take(i as int) =~= results@);
    peers
}

/// Whether a process is the supervisor that bridges a launcher to its
/// container: it runs the supervisor binary and holds a socket whose peer is
/// one of the launcher's.
pub fn is_supervisor(argv0: &str, sockets: &[u32], peers: &[u32]) -> (r: bool)
    ensures
        r == (argv0@ == SUPERVISOR@ && common_member(sockets@, peers@)),
{
    text_equal(argv0, SUPERVISOR) && have_common_member(sockets, peers)
}

/// The first index from `i` on whose argument is `-c`, or -1.
pub open spec fn flag_index(parts: Seq<Seq<u8>>, i: int) -> int
    decreases parts.len() - i,
{
    if i >= parts.len() || i < 0 {
        -1
    } else if parts[i] == seq![0x2du8, 0x63u8] {
        i
    } else {
        flag_index(parts, i + 1)
    }
}

/// The argument that follows the first `-c` of a command line.
pub open spec fn container_id_spec(cmdline: Seq<u8>) -> Option<Seq<u8>> {
    let ps = split(cmdline, 0);
    let i = flag_index(ps, 0);
    if 0 <= i && i + 1 < ps.len() {
        Some(ps[i + 1])
    } else {
        None
    }
}

/// The container id on the supervisor's command line.
pub fn get_container_id(args: &Args) -> (r: Option<Vec<u8>>)
    ensures
        r matches Some(v) ==> container_id_spec(args.0@) == Some(v@),
        r is None ==> container_id_spec(args.0@) is None,
{
    let parts = args.parts();
    let ghost ps = views(parts@);
    assert(ps == split(args.0@, 0));
    let mut i: usize = 0;
    while i < parts.len()
        invariant
            0 <= i <= parts@.len(),
            ps == views(parts@),
            ps == split(args.0@, 0),
            flag_index(ps, 0) == flag_index(ps, i as int),
        decreases parts@.len() - i,
    {
        let p = &parts[i];
        assert(p@ == ps[i as int]);
        if p.len() == 2 && p[0] == 0x2du8 && p[1] == 0x63u8 {
            assert(ps[i as int] =~= seq![0x2du8, 0x63u8]);
            assert(flag_index(ps, i as int) == i);
            if i + 1 < parts.len() {
                let id = crate::process::slice_vec(parts[i + 1].as_slice(), 0, parts[i + 1].len());
                assert(id@ =~= ps[i + 1]);
                return Some(id);
            }
            return None;
        }
        assert(ps[i as int] != seq![0x2du8, 0x63u8]) by {
            if ps[i as int] == seq![0x2du8, 0x63u8] {
                assert(p@.len() == 2);
            }
        }
        i = i + 1;
    }
    None
}

/// The inspector's output without the newline that ends its line.
pub open spec fn output_line(out: Seq<u8>) -> Seq<u8> {
    if out.len() > 0 && out.last() == 0x0a {
        out.drop_last()
    } else {
        out
    }
}

/// The metadata that the inspector's output gives: one line of three fields
/// separated by single spaces (name, image id, image name), each valid UTF-8,
/// and a container id that is valid UTF-8 too.
pub open spec fn inspect_fields(id: Seq<u8>, out: Seq<u8>) -> Option<Seq<Seq<char>>> {
    let fs = split(output_line(out), 0x20);
    if valid_utf8(id) && fs.len() == 3 && valid_utf8(fs[0]) && valid_utf8(fs[1]) && valid_utf8(
        fs[2],
    ) {
        Some(seq![decode_utf8(id), decode_utf8(fs[0]), decode_utf8(fs[1]), decode_utf8(fs[2])])
    } else {
        None
    }
}

impl ContainerInfo {
    pub open spec fn fields(&self) -> Seq<Seq<char>> {
        seq![self.container_id@, self.container_name@, self.image_id@, self.image_name@]
    }
}

/// Reads the inspector's standard output for container `id`.
pub fn container_info_from_output(id: &[u8], output: &[u8]) -> (r: Option<ContainerInfo>)
    ensures
        r matches Some(ci) ==> inspect_fields(id@, output@) == Some(ci.fields()),
        r is None ==> inspect_fields(id@, output@) is None,
{
    let n = output.len();
    let end = if n > 0 && output[n - 1] == 0x0au8 {
        n - 1
    } else {
        n
    };
    let line = slice_subrange(output, 0, end);
    assert(line@ =~= output_line(output@));
    let fields = split_bytes(line, 0x20u8);
    assert(views(fields@) == split(output_line(output@), 0x20));
    if fields.len() != 3 {
        return None;
    }
    let container_id = utf8_text(id);
    let name = utf8_text(fields[0].as_slice());
    let image_id = utf8_text(fields[1].as_slice());
    let image_name = utf8_text(fields[2].as_slice());
    match (container_id, name, image_id, image_name) {
        (Some(c), Some(n), Some(i), Some(m)) => {
            let ci = ContainerInfo { container_id: c, container_name: n, image_id: i, image_name: m };
            assert(ci.fields() =~= inspect_fields(id@, output@)->0);
            Some(ci)
        },
        _ => None,
    }
}

} // verus!
