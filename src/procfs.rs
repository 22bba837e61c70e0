//! Parsing of the NUL-separated records that procfs hands out
//! (`/proc/<pid>/cmdline`, `/proc/<pid>/environ`).
use vstd::prelude::*;

verus! {

/// The separator between records.
pub const NUL: u8 = 0;

/// The byte that ends a variable name in an environment record.
pub const EQUALS: u8 = 0x3d;

/// The pieces of `s` between occurrences of `sep`: always at least one piece,
/// and one more than the number of separators.
pub open spec fn split_on(s: Seq<u8>, sep: u8) -> Seq<Seq<u8>>
    decreases s.len(),
{
    if s.len() == 0 {
        seq![Seq::<u8>::empty()]
    } else {
        let prev = split_on(s.drop_last(), sep);
        if s.last() == sep {
            prev.push(Seq::<u8>::empty())
        } else {
            prev.update(prev.len() - 1, prev.last().push(s.last()))
        }
    }
}

/// The pieces joined back together with `sep` between neighbours.
pub open spec fn join_with(ps: Seq<Seq<u8>>, sep: u8) -> Seq<u8>
    decreases ps.len(),
{
    if ps.len() == 0 {
        Seq::<u8>::empty()
    } else if ps.len() == 1 {
        ps[0]
    } else {
        join_with(ps.drop_last(), sep).push(sep) + ps.last()
    }
}

/// `ps` with its empty trailing pieces removed.
pub open spec fn trim_trailing_empty(ps: Seq<Seq<u8>>) -> Seq<Seq<u8>>
    decreases ps.len(),
{
    if ps.len() > 0 && ps.last().len() == 0 {
        trim_trailing_empty(ps.drop_last())
    } else {
        ps
    }
}

/// The arguments that a command-line record holds.
pub open spec fn cmdline_parts(data: Seq<u8>) -> Seq<Seq<u8>> {
    trim_trailing_empty(split_on(data, NUL))
}

/// The byte strings that a vector of buffers holds.
pub open spec fn views(v: Seq<Vec<u8>>) -> Seq<Seq<u8>> {
    v.map_values(|x: Vec<u8>| x@)
}

/// No piece holds the separator.
pub open spec fn free_of(ps: Seq<Seq<u8>>, sep: u8) -> bool {
    forall|i: int| 0 <= i < ps.len() ==> !(#[trigger] ps[i]).contains(sep)
}

/// An environment record split at its first `=`, or `None` where it has none.
pub open spec fn env_entry(item: Seq<u8>) -> Option<(Seq<u8>, Seq<u8>)> {
    if item.contains(EQUALS) {
        let k = choose|k: int| first_at(item, EQUALS, k);
        Some((item.subrange(0, k), item.subrange(k + 1, item.len() as int)))
    } else {
        None
    }
}

/// `k` is the position of the first `b` in `s`.
pub open spec fn first_at(s: Seq<u8>, b: u8, k: int) -> bool {
    0 <= k < s.len() && s[k] == b && !s.subrange(0, k).contains(b)
}

/// The entries of the records `ps`, in order, skipping records without `=`.
pub open spec fn env_entries(ps: Seq<Seq<u8>>) -> Seq<(Seq<u8>, Seq<u8>)>
    decreases ps.len(),
{
    if ps.len() == 0 {
        Seq::empty()
    } else {
        let prev = env_entries(ps.drop_last());
        match env_entry(ps.last()) {
            Some(e) => prev.push(e),
            None => prev,
        }
    }
}

/// The variables that an environment record block defines, in order.
pub open spec fn environ_entries(data: Seq<u8>) -> Seq<(Seq<u8>, Seq<u8>)> {
    env_entries(split_on(data, NUL))
}

pub proof fn lemma_split_nonempty(s: Seq<u8>, sep: u8)
    ensures
        split_on(s, sep).len() >= 1,
        free_of(split_on(s, sep), sep),
    decreases s.len(),
{
    if s.len() > 0 {
        lemma_split_nonempty(s.drop_last(), sep);
        let prev = split_on(s.drop_last(), sep);
        if s.last() != sep {
            let l = prev.last().push(s.last());
            assert forall|j: int| 0 <= j < l.len() implies l[j] != sep by {
                if j < prev.last().len() {
                    assert(prev.last()[j] == l[j]);
                }
            }
        }
        let cur = split_on(s, sep);
        assert forall|i: int| 0 <= i < cur.len() implies !(#[trigger] cur[i]).contains(sep) by {
            if i < prev.len() - 1 {
                assert(cur[i] == prev[i]);
            }
        }
    }
}

proof fn lemma_split_append_plain(x: Seq<u8>, b: Seq<u8>, sep: u8)
    requires
        !b.contains(sep),
    ensures
        split_on(x + b, sep) == split_on(x, sep).update(
            split_on(x, sep).len() - 1,
            split_on(x, sep).last() + b,
        ),
    decreases b.len(),
{
    lemma_split_nonempty(x, sep);
    if b.len() == 0 {
        assert(x + b =~= x);
        assert(split_on(x, sep).last() + b =~= split_on(x, sep).last());
        assert(split_on(x, sep).update(split_on(x, sep).len() - 1, split_on(x, sep).last())
            =~= split_on(x, sep));
    } else {
        let b0 = b.drop_last();
        assert(!b0.contains(sep)) by {
            assert forall|j: int| 0 <= j < b0.len() implies b0[j] != sep by {
                assert(b0[j] == b[j]);
            }
        }
        lemma_split_append_plain(x, b0, sep);
        assert((x + b).drop_last() =~= x + b0);
        assert((x + b).last() == b.last());
        assert(b.last() != sep) by {
            assert(b[b.len() - 1] == b.last());
        }
        assert((split_on(x, sep).last() + b0).push(b.last()) =~= split_on(x, sep).last() + b);
        lemma_split_nonempty(x + b0, sep);
        assert(split_on(x + b, sep) =~= split_on(x, sep).update(
            split_on(x, sep).len() - 1,
            split_on(x, sep).last() + b,
        ));
    }
}

proof fn lemma_split_join(ps: Seq<Seq<u8>>, sep: u8)
    requires
        ps.len() >= 1,
        free_of(ps, sep),
    ensures
        split_on(join_with(ps, sep), sep) == ps,
    decreases ps.len(),
{
    if ps.len() == 1 {
        assert(!ps[0].contains(sep));
        lemma_split_append_plain(Seq::<u8>::empty(), ps[0], sep);
        assert(Seq::<u8>::empty() + ps[0] =~= ps[0]);
        assert(split_on(Seq::<u8>::empty(), sep) =~= seq![Seq::<u8>::empty()]);
        assert(Seq::<u8>::empty() + ps[0] =~= ps[0]);
        assert(split_on(join_with(ps, sep), sep) =~= ps);
    } else {
        let front = ps.drop_last();
        assert(free_of(front, sep)) by {
            assert forall|i: int| 0 <= i < front.len() implies !(#[trigger] front[i]).contains(sep) by {
                assert(front[i] == ps[i]);
            }
        }
        lemma_split_join(front, sep);
        let j = join_with(front, sep);
        assert(!ps.last().contains(sep)) by {
            assert(ps[ps.len() - 1] == ps.last());
        }
        lemma_split_append_plain(j.push(sep), ps.last(), sep);
        assert(j.push(sep).drop_last() =~= j);
        assert(Seq::<u8>::empty() + ps.last() =~= ps.last());
        assert(split_on(join_with(ps, sep), sep) =~= ps);
    }
}

proof fn lemma_trim_prefix(ps: Seq<Seq<u8>>)
    ensures
        trim_trailing_empty(ps).len() <= ps.len(),
        trim_trailing_empty(ps) == ps.subrange(0, trim_trailing_empty(ps).len() as int),
        trim_trailing_empty(ps).len() == 0 || trim_trailing_empty(ps).last().len() > 0,
    decreases ps.len(),
{
    if ps.len() > 0 && ps.last().len() == 0 {
        lemma_trim_prefix(ps.drop_last());
        let t = trim_trailing_empty(ps.drop_last());
        assert(ps.drop_last().subrange(0, t.len() as int) =~= ps.subrange(0, t.len() as int));
    } else {
        assert(ps.subrange(0, ps.len() as int) =~= ps);
    }
}

/// The arguments read from a command-line record end in a non-empty one, and
/// joining them with NUL and splitting again gives them back, with one
/// empty piece where there are none.
pub proof fn lemma_cmdline_rejoin(data: Seq<u8>)
    ensures
        cmdline_parts(data).len() == 0 || cmdline_parts(data).last().len() > 0,
        cmdline_parts(data).len() > 0 ==> split_on(join_with(cmdline_parts(data), NUL), NUL)
            == cmdline_parts(data),
        cmdline_parts(data).len() == 0 ==> split_on(join_with(cmdline_parts(data), NUL), NUL)
            == cmdline_parts(data).push(Seq::<u8>::empty()),
{
    let all = split_on(data, NUL);
    let ps = cmdline_parts(data);
    lemma_split_nonempty(data, NUL);
    lemma_trim_prefix(all);
    if ps.len() > 0 {
        assert(free_of(ps, NUL)) by {
            assert forall|i: int| 0 <= i < ps.len() implies !(#[trigger] ps[i]).contains(NUL) by {
                assert(ps[i] == all[i]);
            }
        }
        lemma_split_join(ps, NUL);
    } else {
        assert(split_on(Seq::<u8>::empty(), NUL) =~= seq![Seq::<u8>::empty()]);
        assert(ps.push(Seq::<u8>::empty()) =~= seq![Seq::<u8>::empty()]);
    }
}

/// Text decoded from bytes that may not be valid UTF-8.
pub uninterp spec fn lossy_text(b: Seq<u8>) -> Seq<char>;

/// Relies on `String::from_utf8_lossy`: valid UTF-8 is decoded as it is, each
/// invalid sequence becomes U+FFFD, so the text is empty exactly when the
/// bytes are.
#[verifier::external_body]
pub(crate) fn text_of(b: &[u8]) -> (r: String)
    ensures
        r@ == lossy_text(b@),
        vstd::utf8::valid_utf8(b@) ==> r@ == vstd::utf8::decode_utf8(b@),
        r@.len() == 0 <==> b@.len() == 0,
{
    String::from_utf8_lossy(b).into_owned()
}

/// Splits `data` at every NUL byte.
pub fn split_nul(data: &[u8]) -> (r: Vec<Vec<u8>>)
    ensures
        views(r@) == split_on(data@, NUL),
{
    let mut out: Vec<Vec<u8>> = Vec::new();
    let mut cur: Vec<u8> = Vec::new();
    let mut i: usize = 0;
    while i < data.len()
        invariant
            i <= data@.len(),
            views(out@).push(cur@) == split_on(data@.subrange(0, i as int), NUL),
        decreases data@.len() - i,
    {
        let b = data[i];
        proof {
            let pre = data@.subrange(0, i as int);
            let nxt = data@.subrange(0, i as int + 1);
            assert(nxt.drop_last() =~= pre);
            assert(nxt.last() == b);
            lemma_split_nonempty(pre, NUL);
        }
        if b == NUL {
            let ghost before = views(out@);
            let done = cur;
            cur = Vec::new();
            out.push(done);
            proof {
                assert(views(out@) =~= before.push(done@));
                assert(views(out@).push(cur@) =~= split_on(data@.subrange(0, i as int + 1), NUL));
            }
        } else {
            cur.push(b);
            proof {
                assert(views(out@).push(cur@) =~= split_on(data@.subrange(0, i as int + 1), NUL));
            }
        }
        i += 1;
    }
    let ghost before = views(out@);
    let ghost last = cur@;
    out.push(cur);
    proof {
        assert(views(out@) =~= before.push(last));
        assert(data@.subrange(0, data@.len() as int) =~= data@);
    }
    out
}

/// The arguments of a command-line record as bytes: the NUL-separated pieces
/// without the empty ones at the end.
pub fn cmdline_bytes(data: &[u8]) -> (r: Vec<Vec<u8>>)
    ensures
        views(r@) == cmdline_parts(data@),
{
    let mut parts = split_nul(data);
    while parts.len() > 0 && parts[parts.len() - 1].len() == 0
        invariant
            trim_trailing_empty(views(parts@)) == cmdline_parts(data@),
        decreases parts.len(),
    {
        let ghost before = views(parts@);
        parts.pop();
        proof {
            assert(before.last().len() == 0);
            assert(views(parts@) =~= before.drop_last());
        }
    }
    parts
}

/// The arguments of a command-line record, decoded as text.
pub fn process_cmdline_from(data: &[u8]) -> (r: Vec<String>)
    ensures
        r@.len() == cmdline_parts(data@).len(),
        forall|i: int| 0 <= i < r@.len() ==> (#[trigger] r@[i])@ == lossy_text(cmdline_parts(data@)[i]),
        r@.len() == 0 || r@.last()@.len() > 0,
{
    let parts = cmdline_bytes(data);
    let mut out: Vec<String> = Vec::new();
    let mut i: usize = 0;
    while i < parts.len()
        invariant
            i <= parts@.len(),
            views(parts@) == cmdline_parts(data@),
            out@.len() == i,
            forall|j: int| 0 <= j < i ==> (#[trigger] out@[j])@ == lossy_text(parts@[j]@),
            forall|j: int| 0 <= j < i ==> ((#[trigger] out@[j])@.len() == 0 <==> parts@[j]@.len() == 0),
        decreases parts@.len() - i,
    {
        let t = text_of(parts[i].as_slice());
        out.push(t);
        i += 1;
    }
    proof {
        lemma_cmdline_rejoin(data@);
        assert forall|j: int| 0 <= j < out@.len() implies (#[trigger] out@[j])@ == lossy_text(
            cmdline_parts(data@)[j],
        ) by {
            assert(views(parts@)[j] == parts@[j]@);
        }
        if out@.len() > 0 {
            assert(views(parts@)[out@.len() - 1] == parts@[out@.len() - 1]@);
        }
    }
    out
}

/// Splits one environment record at its first `=`.
pub fn split_env_entry(item: &Vec<u8>) -> (r: Option<(Vec<u8>, Vec<u8>)>)
    ensures
        match (r, env_entry(item@)) {
            (Some((n, v)), Some((sn, sv))) => n@ == sn && v@ == sv,
            (None, None) => true,
            _ => false,
        },
{
    let mut k: usize = 0;
    while k < item.len() && item[k] != EQUALS
        invariant
            k <= item@.len(),
            !item@.subrange(0, k as int).contains(EQUALS),
        decreases item@.len() - k,
    {
        proof {
            let nxt = item@.subrange(0, k as int + 1);
            assert forall|j: int| 0 <= j < k + 1 implies #[trigger] nxt[j] != EQUALS by {
                if j < k {
                    assert(nxt[j] == item@.subrange(0, k as int)[j]);
                }
            }
        }
        k += 1;
    }
    if k == item.len() {
        proof {
            assert(item@.subrange(0, k as int) =~= item@);
        }
        return None;
    }
    proof {
        assert(first_at(item@, EQUALS, k as int));
        assert(item@.contains(EQUALS));
        let c = choose|c: int| first_at(item@, EQUALS, c);
        if c < k {
            assert(item@.subrange(0, k as int)[c] == item@[c]);
        } else if c > k {
            assert(item@.subrange(0, c)[k as int] == item@[k as int]);
        }
    }
    let mut name: Vec<u8> = Vec::new();
    let mut value: Vec<u8> = Vec::new();
    let mut j: usize = 0;
    while j < k
        invariant
            j <= k < item@.len(),
            name@ == item@.subrange(0, j as int),
        decreases k - j,
    {
        name.push(item[j]);
        proof {
            assert(name@ =~= item@.subrange(0, j as int + 1));
        }
        j += 1;
    }
    j = k + 1;
    while j < item.len()
        invariant
            k < j <= item@.len(),
            value@ == item@.subrange(k as int + 1, j as int),
        decreases item@.len() - j,
    {
        value.push(item[j]);
        proof {
            assert(value@ =~= item@.subrange(k as int + 1, j as int + 1));
        }
        j += 1;
    }
    Some((name, value))
}

/// The variables that an environment record block defines, in order, as
/// byte strings: each NUL-separated record that holds `=` gives its name
/// (before the first `=`) and its value (the rest, which may hold `=`).
pub fn environ_bytes(data: &[u8]) -> (r: Vec<(Vec<u8>, Vec<u8>)>)
    ensures
        r@.len() == environ_entries(data@).len(),
        forall|i: int|
            0 <= i < r@.len() ==> (#[trigger] r@[i]).0@ == environ_entries(data@)[i].0 && r@[i].1@
                == environ_entries(data@)[i].1,
{
    let items = split_nul(data);
    let ghost all = views(items@);
    let mut out: Vec<(Vec<u8>, Vec<u8>)> = Vec::new();
    let mut i: usize = 0;
    while i < items.len()
        invariant
            i <= items@.len(),
            all == views(items@),
            all == split_on(data@, NUL),
            out@.len() == env_entries(all.subrange(0, i as int)).len(),
            forall|j: int|
                0 <= j < out@.len() ==> (#[trigger] out@[j]).0@ == env_entries(
                    all.subrange(0, i as int),
                )[j].0 && out@[j].1@ == env_entries(all.subrange(0, i as int))[j].1,
        decreases items@.len() - i,
    {
        let e = split_env_entry(&items[i]);
        proof {
            assert(all.subrange(0, i as int + 1).drop_last() =~= all.subrange(0, i as int));
            assert(all.subrange(0, i as int + 1).last() == items@[i as int]@);
        }
        match e {
            Some(p) => {
                out.push(p);
            },
            None => {},
        }
        i += 1;
    }
    proof {
        assert(all.subrange(0, items@.len() as int) =~= all);
    }
    out
}

/// The variables of an environment record block, decoded as text.
pub fn process_environ_from(data: &[u8]) -> (r: Vec<(String, String)>)
    ensures
        r@.len() == environ_entries(data@).len(),
        forall|i: int|
            0 <= i < r@.len() ==> (#[trigger] r@[i]).0@ == lossy_text(environ_entries(data@)[i].0)
                && r@[i].1@ == lossy_text(environ_entries(data@)[i].1),
{
    let entries = environ_bytes(data);
    let mut out: Vec<(String, String)> = Vec::new();
    let mut i: usize = 0;
    while i < entries.len()
        invariant
            i <= entries@.len(),
            entries@.len() == environ_entries(data@).len(),
            forall|j: int|
                0 <= j < entries@.len() ==> (#[trigger] entries@[j]).0@ == environ_entries(data@)[j].0
                    && entries@[j].1@ == environ_entries(data@)[j].1,
            out@.len() == i,
            forall|j: int|
                0 <= j < i ==> (#[trigger] out@[j]).0@ == lossy_text(environ_entries(data@)[j].0)
                    && out@[j].1@ == lossy_text(environ_entries(data@)[j].1),
        decreases entries@.len() - i,
    {
        let n = text_of(entries[i].0.as_slice());
        let v = text_of(entries[i].1.as_slice());
        out.push((n, v));
        i += 1;
    }
    out
}

} // verus!
