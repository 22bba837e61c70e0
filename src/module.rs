//! Loaded images: how map records fold into modules, and how a module is
//! found by name.
use vstd::prelude::*;
use crate::maps::{dash_at, hex_val, line_ok, parse_maps_line, path_start, range_stop, MapRecord};
use crate::procfs::{lossy_text, split_on, text_of};
use vstd::utf8::encode_utf8;

verus! {

pub const SLASH: u8 = 0x2f;

/// One mapped image.
#[derive(Debug, Clone)]
pub struct Module {
    pub base: usize,
    pub size: usize,
    pub name: String,
    pub path: String,
    pub id: Option<u32>,
}

/// A module's base, size and backing path, before the path is decoded.
pub struct ModuleSpan {
    pub base: usize,
    pub size: usize,
    pub path: Vec<u8>,
}

/// A record is backed by a file (its path is absolute).
pub open spec fn is_file_path(p: Seq<u8>) -> bool {
    p.len() > 0 && p[0] == SLASH
}

/// Index just past the last `/` among the first `j` bytes, or zero.
pub open spec fn after_last_slash(p: Seq<u8>, j: int) -> int
    decreases j,
{
    if j <= 0 {
        0
    } else if p[j - 1] == SLASH {
        j
    } else {
        after_last_slash(p, j - 1)
    }
}

/// The last component of a path.
pub open spec fn base_name(p: Seq<u8>) -> Seq<u8> {
    p.subrange(after_last_slash(p, p.len() as int), p.len() as int)
}

/// A region as (start, end, backing path).
pub type Span = (int, int, Seq<u8>);

/// The span of a parsed record.
pub open spec fn record_span(m: MapRecord) -> Span {
    (m.start as int, m.end as int, m.path@)
}

/// The spans of parsed records.
pub open spec fn record_spans(rs: Seq<MapRecord>) -> Seq<Span> {
    rs.map_values(|m: MapRecord| record_span(m))
}

/// The modules that the spans `ss` describe, as (base, size, path): each run
/// of neighbouring file-backed spans with one path is one module, whose base
/// is the least start of the run and whose size is the sum of the run's
/// region sizes.
pub open spec fn module_groups(ss: Seq<Span>) -> Seq<Span>
    decreases ss.len(),
{
    if ss.len() == 0 {
        Seq::empty()
    } else {
        let prev = module_groups(ss.drop_last());
        let r = ss.last();
        let n = ss.len() as int;
        if !is_file_path(r.2) {
            prev
        } else if n >= 2 && ss[n - 2].2 == r.2 && prev.len() > 0 {
            let g = prev.last();
            prev.update(prev.len() - 1, (if r.0 < g.0 { r.0 } else { g.0 }, g.1 + (r.1 - r.0), r.2))
        } else {
            prev.push((r.0, r.1 - r.0, r.2))
        }
    }
}

/// Every span's start does not exceed its end.
pub open spec fn spans_ok(ss: Seq<Span>) -> bool {
    forall|i: int| 0 <= i < ss.len() ==> (#[trigger] ss[i]).0 <= ss[i].1
}

/// Every record's start does not exceed its end.
pub open spec fn records_ok(rs: Seq<MapRecord>) -> bool {
    forall|i: int| 0 <= i < rs.len() ==> (#[trigger] rs[i]).start <= rs[i].end
}

/// Some module's size does not fit in a `usize`.
pub open spec fn too_large(gs: Seq<Span>) -> bool {
    exists|k: int| 0 <= k < gs.len() && (#[trigger] gs[k]).1 > usize::MAX
}

proof fn lemma_groups_grow(ss: Seq<Span>, j: int)
    requires
        0 <= j <= ss.len(),
        spans_ok(ss),
    ensures
        module_groups(ss.subrange(0, j)).len() <= module_groups(ss).len(),
        forall|k: int|
            0 <= k < module_groups(ss.subrange(0, j)).len() ==> module_groups(ss)[k].1
                >= #[trigger] module_groups(ss.subrange(0, j))[k].1,
    decreases ss.len(),
{
    if j == ss.len() {
        assert(ss.subrange(0, j) =~= ss);
    } else {
        let front = ss.drop_last();
        assert(spans_ok(front)) by {
            assert forall|i: int| 0 <= i < front.len() implies (#[trigger] front[i]).0
                <= front[i].1 by {
                assert(front[i] == ss[i]);
            }
        }
        lemma_groups_grow(front, j);
        assert(front.subrange(0, j) =~= ss.subrange(0, j));
        assert(ss.last() == ss[ss.len() - 1]);
    }
}

proof fn lemma_spans_ok(rs: Seq<MapRecord>)
    requires
        records_ok(rs),
    ensures
        spans_ok(record_spans(rs)),
{
    assert forall|i: int| 0 <= i < record_spans(rs).len() implies (#[trigger] record_spans(rs)[i]).0
        <= record_spans(rs)[i].1 by {
        assert(rs[i].start <= rs[i].end);
    }
}

/// Index just past the last `/` of `p`.
fn name_start(p: &Vec<u8>) -> (r: usize)
    ensures
        r == after_last_slash(p@, p@.len() as int),
        r <= p@.len(),
{
    let mut j: usize = 0;
    let mut k: usize = 0;
    while j < p.len()
        invariant
            j <= p@.len(),
            k == after_last_slash(p@, j as int),
            k <= j,
        decreases p@.len() - j,
    {
        if p[j] == SLASH {
            k = j + 1;
        }
        j += 1;
    }
    k
}

/// The module that a span describes, its name being the path's last component.
pub fn module_from_span(s: &ModuleSpan) -> (r: Module)
    ensures
        r.base == s.base,
        r.size == s.size,
        r.path@ == lossy_text(s.path@),
        r.name@ == lossy_text(base_name(s.path@)),
        r.id is None,
{
    let k = name_start(&s.path);
    let mut name: Vec<u8> = Vec::new();
    let mut j = k;
    while j < s.path.len()
        invariant
            k <= j <= s.path@.len(),
            name@ == s.path@.subrange(k as int, j as int),
        decreases s.path@.len() - j,
    {
        name.push(s.path[j]);
        proof {
            assert(name@ =~= s.path@.subrange(k as int, j as int + 1));
        }
        j += 1;
    }
    Module {
        base: s.base,
        size: s.size,
        name: text_of(name.as_slice()),
        path: text_of(s.path.as_slice()),
        id: None,
    }
}

fn copy_bytes(v: &Vec<u8>) -> (r: Vec<u8>)
    ensures
        r@ == v@,
{
    let mut out: Vec<u8> = Vec::new();
    let mut i: usize = 0;
    while i < v.len()
        invariant
            i <= v@.len(),
            out@ == v@.subrange(0, i as int),
        decreases v@.len() - i,
    {
        out.push(v[i]);
        proof {
            assert(out@ =~= v@.subrange(0, i as int + 1));
        }
        i += 1;
    }
    out
}

/// Folds map records into module spans; `None` where some module's size
/// would not fit in a `usize`.
pub fn module_spans(rs: &Vec<MapRecord>) -> (r: Option<Vec<ModuleSpan>>)
    requires
        records_ok(rs@),
    ensures
        r is None <==> too_large(module_groups(record_spans(rs@))),
        r matches Some(v) ==> v@.len() == module_groups(record_spans(rs@)).len() && forall|k: int|
            0 <= k < v@.len() ==> (#[trigger] v@[k]).base == module_groups(record_spans(rs@))[k].0
                && v@[k].size == module_groups(record_spans(rs@))[k].1 && v@[k].path@
                == module_groups(record_spans(rs@))[k].2,
{
    let mut out: Vec<ModuleSpan> = Vec::new();
    let mut i: usize = 0;
    while i < rs.len()
        invariant
            i <= rs@.len(),
            records_ok(rs@),
            out@.len() == module_groups(record_spans(rs@).subrange(0, i as int)).len(),
            forall|k: int|
                0 <= k < out@.len() ==> (#[trigger] out@[k]).base == module_groups(
                    record_spans(rs@).subrange(0, i as int),
                )[k].0 && out@[k].size == module_groups(record_spans(rs@).subrange(0, i as int))[k].1
                    && out@[k].path@ == module_groups(record_spans(rs@).subrange(0, i as int))[k].2,
        decreases rs@.len() - i,
    {
        let ghost ss = record_spans(rs@);
        let ghost pre = ss.subrange(0, i as int);
        let ghost cur = ss.subrange(0, i as int + 1);
        proof {
            assert(cur.drop_last() =~= pre);
            assert(cur.last() == record_span(rs@[i as int]));
            assert(rs@[i as int].start <= rs@[i as int].end);
        }
        let r = &rs[i];
        let file = r.path.len() > 0 && r.path[0] == SLASH;
        if file {
            let joins = if i >= 1 && out.len() > 0 {
                let prev_path = &rs[i - 1].path;
                let mut same = prev_path.len() == r.path.len();
                let mut j: usize = 0;
                while same && j < r.path.len()
                    invariant
                        j <= r.path@.len(),
                        same ==> prev_path@.len() == r.path@.len(),
                        same ==> prev_path@.subrange(0, j as int) == r.path@.subrange(0, j as int),
                        !same ==> prev_path@ != r.path@,
                    decreases r.path@.len() - j,
                {
                    if prev_path[j] != r.path[j] {
                        same = false;
                    }
                    proof {
                        if same {
                            assert(prev_path@.subrange(0, j as int + 1) =~= prev_path@.subrange(
                                0,
                                j as int,
                            ).push(prev_path@[j as int]));
                            assert(r.path@.subrange(0, j as int + 1) =~= r.path@.subrange(
                                0,
                                j as int,
                            ).push(r.path@[j as int]));
                        }
                    }
                    j += 1;
                }
                proof {
                    if same {
                        assert(prev_path@ =~= prev_path@.subrange(0, r.path@.len() as int));
                        assert(r.path@ =~= r.path@.subrange(0, r.path@.len() as int));
                    }
                    assert(cur[cur.len() - 2] == record_span(rs@[i - 1]));
                }
                same
            } else {
                false
            };
            let contribution = r.end - r.start;
            if joins {
                let last = out.len() - 1;
                let g_base = out[last].base;
                let g_size = out[last].size;
                if g_size > usize::MAX - contribution {
                    proof {
                        let gs = module_groups(ss);
                        lemma_spans_ok(rs@);
                        lemma_groups_grow(ss, i as int + 1);
                        assert(module_groups(cur)[last as int].1 > usize::MAX);
                        assert(gs[last as int].1 >= module_groups(cur)[last as int].1);
                    }
                    return None;
                }
                let base = if r.start < g_base {
                    r.start
                } else {
                    g_base
                };
                let path = copy_bytes(&r.path);
                let ghost before = out@;
                out.set(last, ModuleSpan { base, size: g_size + contribution, path });
                proof {
                    assert forall|k: int| 0 <= k < out@.len() implies (#[trigger] out@[k]).base
                        == module_groups(cur)[k].0 && out@[k].size == module_groups(cur)[k].1
                        && out@[k].path@ == module_groups(cur)[k].2 by {
                        if k < last {
                            assert(out@[k] == before[k]);
                        }
                    }
                }
            } else {
                let path = copy_bytes(&r.path);
                out.push(ModuleSpan { base: r.start, size: contribution, path });
                proof {
                    assert forall|k: int| 0 <= k < out@.len() implies (#[trigger] out@[k]).base
                        == module_groups(cur)[k].0 && out@[k].size == module_groups(cur)[k].1
                        && out@[k].path@ == module_groups(cur)[k].2 by {
                        if k < out@.len() - 1 {
                            assert(module_groups(cur)[k] == module_groups(pre)[k]);
                        }
                    }
                }
            }
        }
        i += 1;
    }
    proof {
        let ss = record_spans(rs@);
        assert(ss.subrange(0, rs@.len() as int) =~= ss);
        assert(!too_large(module_groups(ss))) by {
            assert forall|k: int| 0 <= k < module_groups(ss).len() implies !((
            #[trigger] module_groups(ss)[k]).1 > usize::MAX) by {
                assert(out@[k].size == module_groups(ss)[k].1);
            }
        }
    }
    Some(out)
}


/// The byte that ends a line.
pub const NEWLINE: u8 = 0x0a;

/// The span that a well-formed maps line describes.
pub open spec fn line_span(l: Seq<u8>) -> Span {
    (
        hex_val(l, 0, dash_at(l)),
        hex_val(l, dash_at(l) + 1, range_stop(l)),
        l.subrange(path_start(l), l.len() as int),
    )
}

/// The spans of the well-formed lines among `ls`, in order.
pub open spec fn ok_spans(ls: Seq<Seq<u8>>) -> Seq<Span>
    decreases ls.len(),
{
    if ls.len() == 0 {
        Seq::empty()
    } else if line_ok(ls.last()) {
        ok_spans(ls.drop_last()).push(line_span(ls.last()))
    } else {
        ok_spans(ls.drop_last())
    }
}

/// The spans of a maps listing: one for each well-formed line, in order.
pub open spec fn maps_spans(data: Seq<u8>) -> Seq<Span> {
    ok_spans(split_on(data, NEWLINE))
}

/// The modules of a maps listing, as (base, size, path).
pub open spec fn maps_modules(data: Seq<u8>) -> Seq<Span> {
    module_groups(maps_spans(data))
}

/// Appends the record of `line` to `out` where the line is well formed.
fn take_line(out: &mut Vec<MapRecord>, line: &Vec<u8>)
    requires
        records_ok(old(out)@),
    ensures
        records_ok(final(out)@),
        record_spans(final(out)@) == (if line_ok(line@) {
            record_spans(old(out)@).push(line_span(line@))
        } else {
            record_spans(old(out)@)
        }),
{
    let ghost before = out@;
    match parse_maps_line(line.as_slice()) {
        Some(m) => {
            out.push(m);
            proof {
                assert(record_spans(out@) =~= record_spans(before).push(line_span(line@)));
            }
        },
        None => {},
    }
}

/// The records of a maps listing: one for each well-formed line, in order;
/// other lines are skipped.
pub fn parse_maps(data: &[u8]) -> (r: Vec<MapRecord>)
    ensures
        record_spans(r@) == maps_spans(data@),
        records_ok(r@),
{
    let mut out: Vec<MapRecord> = Vec::new();
    let mut line: Vec<u8> = Vec::new();
    let mut i: usize = 0;
    let ghost mut seen: Seq<Seq<u8>> = Seq::empty();
    proof {
        assert(record_spans(out@) =~= Seq::<Span>::empty());
        assert(data@.subrange(0, 0) =~= Seq::<u8>::empty());
        assert(seen.push(line@) =~= seq![Seq::<u8>::empty()]);
    }
    while i < data.len()
        invariant
            i <= data@.len(),
            seen.push(line@) == split_on(data@.subrange(0, i as int), NEWLINE),
            record_spans(out@) == ok_spans(seen),
            records_ok(out@),
        decreases data@.len() - i,
    {
        let b = data[i];
        proof {
            let pre = data@.subrange(0, i as int);
            assert(data@.subrange(0, i as int + 1).drop_last() =~= pre);
            assert(data@.subrange(0, i as int + 1).last() == b);
            crate::procfs::lemma_split_nonempty(pre, NEWLINE);
        }
        if b == NEWLINE {
            proof {
                assert(seen.push(line@).push(Seq::<u8>::empty()) =~= split_on(
                    data@.subrange(0, i as int + 1),
                    NEWLINE,
                ));
            }
            let ghost done = line@;
            take_line(&mut out, &line);
            proof {
                assert(seen.push(done).drop_last() =~= seen);
                seen = seen.push(done);
            }
            line = Vec::new();
        } else {
            line.push(b);
            proof {
                assert(seen.push(line@) =~= split_on(data@.subrange(0, i as int + 1), NEWLINE));
            }
        }
        i += 1;
    }
    proof {
        assert(data@.subrange(0, data@.len() as int) =~= data@);
        assert(seen.push(line@).drop_last() =~= seen);
    }
    take_line(&mut out, &line);
    out
}

/// The modules that parsed records describe, or `None` where some module's
/// size would not fit in a `usize`.
pub fn modules_from_records(rs: &Vec<MapRecord>) -> (r: Option<Vec<Module>>)
    requires
        records_ok(rs@),
    ensures
        r is None <==> too_large(module_groups(record_spans(rs@))),
        r matches Some(v) ==> modules_match(v@, module_groups(record_spans(rs@))),
{
    let spans = match module_spans(rs) {
        Some(v) => v,
        None => return None,
    };
    let mut out: Vec<Module> = Vec::new();
    let mut i: usize = 0;
    while i < spans.len()
        invariant
            i <= spans@.len(),
            spans@.len() == module_groups(record_spans(rs@)).len(),
            forall|k: int|
                0 <= k < spans@.len() ==> (#[trigger] spans@[k]).base == module_groups(
                    record_spans(rs@),
                )[k].0 && spans@[k].size == module_groups(record_spans(rs@))[k].1
                    && spans@[k].path@ == module_groups(record_spans(rs@))[k].2,
            out@.len() == i,
            forall|k: int|
                0 <= k < i ==> module_matches(#[trigger] out@[k], module_groups(record_spans(rs@))[k]),
        decreases spans@.len() - i,
    {
        let m = module_from_span(&spans[i]);
        out.push(m);
        i += 1;
    }
    Some(out)
}

/// A module is the decoded form of the span (base, size, path).
pub open spec fn module_matches(m: Module, g: Span) -> bool {
    &&& m.base == g.0
    &&& m.size == g.1
    &&& m.path@ == lossy_text(g.2)
    &&& m.name@ == lossy_text(base_name(g.2))
    &&& m.id is None
}

/// Modules are, one for one, the decoded forms of the spans `gs`.
pub open spec fn modules_match(ms: Seq<Module>, gs: Seq<Span>) -> bool {
    ms.len() == gs.len() && forall|k: int| 0 <= k < ms.len() ==> module_matches(#[trigger] ms[k], gs[k])
}

/// The modules of a maps listing: neighbouring file-backed regions with one
/// path fold into one module. `None` where some module's size would not fit
/// in a `usize`.
pub fn modules_from_maps(data: &[u8]) -> (r: Option<Vec<Module>>)
    ensures
        r is None <==> too_large(maps_modules(data@)),
        r matches Some(v) ==> modules_match(v@, maps_modules(data@)),
{
    let records = parse_maps(data);
    modules_from_records(&records)
}

fn copy_module(m: &Module) -> (r: Module)
    ensures
        r == *m,
{
    Module { base: m.base, size: m.size, name: m.name.clone(), path: m.path.clone(), id: m.id }
}

/// The first module whose name equals `name` exactly.
pub fn find_module_by_name(modules: &Vec<Module>, name: &str) -> (r: Option<Module>)
    ensures
        r is Some <==> exists|i: int| 0 <= i < modules@.len() && (#[trigger] modules@[i]).name@ == name@,
        r matches Some(m) ==> exists|i: int|
            0 <= i < modules@.len() && m == modules@[i] && m.name@ == name@ && forall|j: int|
                0 <= j < i ==> (#[trigger] modules@[j]).name@ != name@,
{
    let query = name.to_owned();
    let mut i: usize = 0;
    while i < modules.len()
        invariant
            i <= modules@.len(),
            query@ == name@,
            forall|j: int| 0 <= j < i ==> (#[trigger] modules@[j]).name@ != name@,
        decreases modules@.len() - i,
    {
        if modules[i].name == query {
            return Some(copy_module(&modules[i]));
        }
        i += 1;
    }
    None
}

/// The byte in lower case where it is an ASCII capital letter.
pub open spec fn ascii_lower(c: u8) -> u8 {
    if 0x41 <= c <= 0x5a {
        (c + 0x20) as u8
    } else {
        c
    }
}

/// Two byte strings are equal once ASCII capitals are lowered.
pub open spec fn eq_ignore_case_bytes(a: Seq<u8>, b: Seq<u8>) -> bool {
    a.len() == b.len() && forall|i: int| 0 <= i < a.len() ==> ascii_lower(#[trigger] a[i]) == ascii_lower(b[i])
}

/// Two texts are equal once ASCII capitals are lowered.
pub open spec fn eq_ignore_case(a: Seq<char>, b: Seq<char>) -> bool {
    eq_ignore_case_bytes(encode_utf8(a), encode_utf8(b))
}

/// Compares two names with ASCII letters matched regardless of case.
pub fn eq_ignore_ascii_case(a: &str, b: &str) -> (r: bool)
    ensures
        r == eq_ignore_case(a@, b@),
{
    let x = a.as_bytes();
    let y = b.as_bytes();
    if x.len() != y.len() {
        return false;
    }
    let mut i: usize = 0;
    while i < x.len()
        invariant
            i <= x@.len() == y@.len(),
            x@ == encode_utf8(a@),
            y@ == encode_utf8(b@),
            forall|j: int| 0 <= j < i ==> ascii_lower(#[trigger] x@[j]) == ascii_lower(y@[j]),
        decreases x@.len() - i,
    {
        let c = x[i];
        let d = y[i];
        let lc = if 0x41 <= c && c <= 0x5a {
            c + 0x20
        } else {
            c
        };
        let ld = if 0x41 <= d && d <= 0x5a {
            d + 0x20
        } else {
            d
        };
        if lc != ld {
            return false;
        }
        i += 1;
    }
    true
}

/// The first module whose name equals `name` with ASCII letters matched
/// regardless of case.
pub fn find_module_ignore_case(modules: &Vec<Module>, name: &str) -> (r: Option<Module>)
    ensures
        r is Some <==> exists|i: int|
            0 <= i < modules@.len() && eq_ignore_case((#[trigger] modules@[i]).name@, name@),
        r matches Some(m) ==> exists|i: int|
            0 <= i < modules@.len() && m == modules@[i] && eq_ignore_case(m.name@, name@) && forall|
                j: int,
            | 0 <= j < i ==> !eq_ignore_case((#[trigger] modules@[j]).name@, name@),
{
    let mut i: usize = 0;
    while i < modules.len()
        invariant
            i <= modules@.len(),
            forall|j: int| 0 <= j < i ==> !eq_ignore_case((#[trigger] modules@[j]).name@, name@),
        decreases modules@.len() - i,
    {
        if eq_ignore_ascii_case(modules[i].name.as_str(), name) {
            return Some(copy_module(&modules[i]));
        }
        i += 1;
    }
    None
}

/// The non-zero entries of a module handle list, in order.
pub fn loaded_module_bases(list: &Vec<usize>) -> (r: Vec<usize>)
    ensures
        r@ == list@.filter(|m: usize| m > 0),
{
    let mut out: Vec<usize> = Vec::new();
    let mut i: usize = 0;
    while i < list.len()
        invariant
            i <= list@.len(),
            out@ == list@.subrange(0, i as int).filter(|m: usize| m > 0),
        decreases list@.len() - i,
    {
        proof {
            let sub = list@.subrange(0, i as int + 1);
            assert(sub.drop_last() =~= list@.subrange(0, i as int));
            assert(sub.last() == list@[i as int]);
            reveal(Seq::filter);
        }
        if list[i] > 0 {
            out.push(list[i]);
        }
        i += 1;
    }
    proof {
        assert(list@.subrange(0, list@.len() as int) =~= list@);
    }
    out
}

impl Module {
    /// The half-open address range the module covers.
    pub fn as_range(&self) -> (r: core::ops::Range<usize>)
        requires
            self.base + self.size <= usize::MAX,
        ensures
            r.start == self.base,
            r.end == self.base + self.size,
    {
        self.base..self.base + self.size
    }
}

} // verus!
