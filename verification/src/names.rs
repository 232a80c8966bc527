//! Domain names on the wire.
//!
//! A name is a dot-separated byte string ("www.example.com").  On the wire
//! it becomes a run of length-prefixed labels ended by a zero byte, or a
//! two-byte backward pointer (top two bits set, low 14 bits an absolute
//! offset) into an earlier occurrence of the same suffix.  Encoding records
//! every suffix it writes in a [`NameTable`] so later names can point back;
//! decoding follows pointer chains with a bounded jump budget, so a
//! malicious cycle ends in `CompressionLoop` instead of a hang.

use vstd::prelude::*;

use crate::errors::DnsError;
use crate::wire::push_range;

verus! {

/// The byte separating labels in a textual name.
pub const DOT: u8 = 0x2E;

// ---------------------------------------------------------------------
// Splitting and joining dotted names (spec level)
// ---------------------------------------------------------------------

/// Splits a non-root name on every dot; "a..b" has an empty middle label,
/// "a." an empty last one, exactly as textual splitting does.
pub open spec fn split_rec(s: Seq<u8>) -> Seq<Seq<u8>>
    decreases s.len(),
{
    if s.len() == 0 {
        seq![Seq::<u8>::empty()]
    } else if s[0] == DOT {
        seq![Seq::<u8>::empty()] + split_rec(s.drop_first())
    } else {
        let r = split_rec(s.drop_first());
        seq![seq![s[0]] + r[0]] + r.drop_first()
    }
}

/// The labels of a name; the root (empty) name has none.
pub open spec fn spec_labels(name: Seq<u8>) -> Seq<Seq<u8>> {
    if name.len() == 0 {
        seq![]
    } else {
        split_rec(name)
    }
}

/// Joins labels back into a dotted name.
pub open spec fn spec_join(labels: Seq<Seq<u8>>) -> Seq<u8>
    decreases labels.len(),
{
    if labels.len() == 0 {
        Seq::empty()
    } else if labels.len() == 1 {
        labels[0]
    } else {
        labels[0] + seq![DOT] + spec_join(labels.drop_first())
    }
}

/// The views of a vector of byte vectors.
pub open spec fn seq_views(s: Seq<Vec<u8>>) -> Seq<Seq<u8>> {
    Seq::new(s.len(), |i: int| s[i]@)
}

/// A label fit for the wire: non-empty and at most 63 bytes.
pub open spec fn wf_labels(labels: Seq<Seq<u8>>) -> bool {
    forall|i: int| 0 <= i < labels.len() ==> 1 <= #[trigger] labels[i].len() <= 63
}

/// A name whose labels are all fit for the wire.
pub open spec fn wf_name(name: Seq<u8>) -> bool {
    wf_labels(spec_labels(name))
}

/// A label that contains no separator byte.
pub open spec fn dot_free(s: Seq<u8>) -> bool {
    forall|i: int| 0 <= i < s.len() ==> s[i] != DOT
}

/// Splitting always yields at least one piece.
pub proof fn lemma_split_rec_len(s: Seq<u8>)
    ensures
        split_rec(s).len() >= 1,
    decreases s.len(),
{
    if s.len() == 0 {
    } else if s[0] == DOT {
    } else {
        lemma_split_rec_len(s.drop_first());
    }
}

/// A dot-free string splits into itself alone.
pub proof fn lemma_split_dot_free(s: Seq<u8>)
    requires
        dot_free(s),
    ensures
        split_rec(s) =~~= seq![s],
    decreases s.len(),
{
    if s.len() == 0 {
        assert(split_rec(s) =~~= seq![s]);
    } else {
        assert(dot_free(s.drop_first()));
        lemma_split_dot_free(s.drop_first());
        lemma_split_rec_len(s.drop_first());
        assert(seq![s[0]] + s.drop_first() =~= s);
        assert(split_rec(s) =~~= seq![s]);
    }
}

/// Splitting `a ++ "." ++ t` for a dot-free `a` peels off `a`.
pub proof fn lemma_split_concat(a: Seq<u8>, t: Seq<u8>)
    requires
        dot_free(a),
    ensures
        split_rec(a + seq![DOT] + t) =~~= seq![a] + split_rec(t),
    decreases a.len(),
{
    let s = a + seq![DOT] + t;
    if a.len() == 0 {
        assert(s =~= seq![DOT] + t);
        assert((seq![DOT] + t).drop_first() =~= t);
    } else {
        assert(s[0] == a[0]);
        assert(s[0] != DOT);
        assert(s.drop_first() =~= a.drop_first() + seq![DOT] + t);
        assert(dot_free(a.drop_first()));
        lemma_split_concat(a.drop_first(), t);
        let r = split_rec(s.drop_first());
        assert(r =~~= seq![a.drop_first()] + split_rec(t));
        lemma_split_rec_len(t);
        assert(r[0] == a.drop_first());
        assert(seq![s[0]] + r[0] =~= a);
        assert(r.drop_first() =~~= split_rec(t));
    }
}

/// Joining the split of a name gives the name back.
pub proof fn lemma_join_split(name: Seq<u8>)
    ensures
        spec_join(spec_labels(name)) =~= name,
    decreases name.len(),
{
    if name.len() == 0 {
    } else {
        lemma_join_split_rec(name);
    }
}

proof fn lemma_join_split_rec(s: Seq<u8>)
    ensures
        spec_join(split_rec(s)) =~= s,
    decreases s.len(),
{
    lemma_split_rec_len(s);
    if s.len() == 0 {
    } else if s[0] == DOT {
        lemma_join_split_rec(s.drop_first());
        lemma_split_rec_len(s.drop_first());
        let l = seq![Seq::<u8>::empty()] + split_rec(s.drop_first());
        assert(l.drop_first() =~~= split_rec(s.drop_first()));
        if split_rec(s.drop_first()).len() == 0 {
        } else {
            assert(spec_join(l) =~= Seq::<u8>::empty() + seq![DOT] + spec_join(
                split_rec(s.drop_first()),
            ));
        }
    } else {
        lemma_join_split_rec(s.drop_first());
        let r = split_rec(s.drop_first());
        lemma_split_rec_len(s.drop_first());
        let l = seq![seq![s[0]] + r[0]] + r.drop_first();
        if r.len() == 1 {
            assert(spec_join(r) == r[0]);
            assert(l.len() == 1);
            assert(spec_join(l) =~= seq![s[0]] + r[0]);
            assert(seq![s[0]] + r[0] =~= seq![s[0]] + spec_join(r));
        } else {
            assert(l.len() >= 2);
            assert(l.drop_first() =~~= r.drop_first());
            assert(spec_join(l) =~= (seq![s[0]] + r[0]) + seq![DOT] + spec_join(r.drop_first()));
            assert(spec_join(r) =~= r[0] + seq![DOT] + spec_join(r.drop_first()));
        }
        assert(spec_join(l) =~= seq![s[0]] + spec_join(r));
        assert(seq![s[0]] + s.drop_first() =~= s);
    }
}

/// Splitting the join of wire-fit, dot-free labels gives the labels back.
pub proof fn lemma_split_join(labels: Seq<Seq<u8>>)
    requires
        forall|i: int| 0 <= i < labels.len() ==> #[trigger] labels[i].len() > 0,
        forall|i: int| 0 <= i < labels.len() ==> dot_free(#[trigger] labels[i]),
    ensures
        spec_labels(spec_join(labels)) =~~= labels,
    decreases labels.len(),
{
    if labels.len() == 0 {
    } else if labels.len() == 1 {
        assert(spec_join(labels) == labels[0]);
        lemma_split_dot_free(labels[0]);
        assert(spec_labels(labels[0]) =~~= seq![labels[0]]);
        assert(seq![labels[0]] =~~= labels);
    } else {
        let rest = labels.drop_first();
        assert(forall|i: int| 0 <= i < rest.len() ==> #[trigger] rest[i].len() > 0);
        assert(forall|i: int| 0 <= i < rest.len() ==> dot_free(#[trigger] rest[i]));
        lemma_split_join(rest);
        lemma_split_concat(labels[0], spec_join(rest));
        assert(rest[0].len() > 0);
        assert(spec_join(rest).len() > 0) by {
            lemma_join_len_lower(rest);
        }
        assert(spec_labels(spec_join(labels)) =~~= seq![labels[0]] + split_rec(spec_join(rest)));
        assert(split_rec(spec_join(rest)) =~~= spec_labels(spec_join(rest)));
        assert(seq![labels[0]] + rest =~~= labels);
    }
}

/// The join of labels is at least as long as its first label.
proof fn lemma_join_len_lower(labels: Seq<Seq<u8>>)
    requires
        labels.len() > 0,
    ensures
        spec_join(labels).len() >= labels[0].len(),
{
}

// ---------------------------------------------------------------------
// The wire form of a name (spec level)
// ---------------------------------------------------------------------

/// The literal (uncompressed) wire form: each label length-prefixed, then a
/// zero byte.
pub open spec fn spec_literal_name(labels: Seq<Seq<u8>>) -> Seq<u8>
    decreases labels.len(),
{
    if labels.len() == 0 {
        seq![0u8]
    } else {
        seq![labels[0].len() as u8] + labels[0] + spec_literal_name(labels.drop_first())
    }
}

/// A literal name takes two bytes more than its dotted text.
pub proof fn lemma_literal_len(labels: Seq<Seq<u8>>)
    requires
        labels.len() > 0,
    ensures
        spec_literal_name(labels).len() == spec_join(labels).len() + 2,
    decreases labels.len(),
{
    if labels.len() == 1 {
        assert(labels.drop_first().len() == 0);
        assert(spec_literal_name(labels.drop_first()) =~= seq![0u8]);
        assert(spec_literal_name(labels).len() == 1 + labels[0].len() + 1);
        assert(spec_join(labels) == labels[0]);
    } else {
        lemma_literal_len(labels.drop_first());
        assert(spec_join(labels) == labels[0] + seq![DOT] + spec_join(labels.drop_first()));
    }
}

/// What encoding a name at absolute offset `off` produces, given the table
/// of suffixes already written.  Walking the labels front to back: a suffix
/// already in the table becomes a two-byte pointer and ends the name; an
/// unseen suffix is written as a literal label and recorded (when its
/// offset is still reachable by a 14-bit pointer); a label longer than 63
/// bytes cannot be written at all.
pub open spec fn spec_pack_name(labels: Seq<Seq<u8>>, table: Map<Seq<u8>, u16>, off: int) -> Result<
    (Seq<u8>, Map<Seq<u8>, u16>),
    DnsError,
>
    decreases labels.len(),
{
    if labels.len() == 0 {
        Ok((seq![0u8], table))
    } else {
        let suffix = spec_join(labels);
        if table.contains_key(suffix) {
            let p = table[suffix] as int;
            Ok((seq![(192 + p / 256) as u8, (p % 256) as u8], table))
        } else if labels[0].len() > 63 {
            Err(DnsError::LabelTooLong)
        } else {
            let t1 = if 0 <= off < 0x4000 {
                table.insert(suffix, off as u16)
            } else {
                table
            };
            match spec_pack_name(labels.drop_first(), t1, off + 1 + labels[0].len()) {
                Ok((rest, t2)) => Ok((seq![labels[0].len() as u8] + labels[0] + rest, t2)),
                Err(e) => Err(e),
            }
        }
    }
}

/// No suffix of `labels` occurs in `table`.
pub open spec fn no_suffix_hit(labels: Seq<Seq<u8>>, table: Map<Seq<u8>, u16>) -> bool {
    forall|i: int| 0 <= i < labels.len() ==> !table.contains_key(spec_join(#[trigger] labels.skip(i)))
}

/// With no suffix in the table, packing wire-fit labels succeeds, writes
/// the literal form, and records the whole name at its offset (when that
/// offset is reachable by a pointer).
pub proof fn lemma_pack_fresh(labels: Seq<Seq<u8>>, table: Map<Seq<u8>, u16>, off: int)
    requires
        wf_labels(labels),
        no_suffix_hit(labels, table),
    ensures
        spec_pack_name(labels, table, off) is Ok,
        spec_pack_name(labels, table, off)->Ok_0.0 == spec_literal_name(labels),
        labels.len() > 0 && 0 <= off < 0x4000 ==> {
            let t2 = spec_pack_name(labels, table, off)->Ok_0.1;
            t2.contains_key(spec_join(labels)) && t2[spec_join(labels)] == off as u16
        },
    decreases labels.len(),
{
    if labels.len() == 0 {
    } else {
        let suffix = spec_join(labels);
        assert(labels.skip(0) =~~= labels);
        assert(!table.contains_key(suffix));
        assert(labels[0].len() <= 63);
        let t1 = if 0 <= off < 0x4000 {
            table.insert(suffix, off as u16)
        } else {
            table
        };
        let rest = labels.drop_first();
        assert(wf_labels(rest));
        assert forall|i: int| 0 <= i < rest.len() implies !t1.contains_key(
            spec_join(#[trigger] rest.skip(i)),
        ) by {
            assert(rest.skip(i) =~~= labels.skip(i + 1));
            assert(!table.contains_key(spec_join(labels.skip(i + 1))));
            if 0 <= off < 0x4000 {
                // the key just added is the whole name, strictly longer than
                // any proper suffix, so it cannot collide
                lemma_suffix_strict(labels, i + 1);
            }
        }
        lemma_pack_fresh(rest, t1, off + 1 + labels[0].len());
        if 0 <= off < 0x4000 {
            lemma_pack_preserves_table(rest, t1, off + 1 + labels[0].len(), suffix);
        }
    }
}

/// Dropping the first label cannot lengthen the join.
proof fn lemma_join_drop_le(s: Seq<Seq<u8>>)
    requires
        s.len() >= 1,
    ensures
        spec_join(s.drop_first()).len() <= spec_join(s).len(),
{
    if s.len() == 1 {
        assert(s.drop_first().len() == 0);
    }
}

/// Dropping any number of leading labels cannot lengthen the join.
proof fn lemma_join_skip_le(s: Seq<Seq<u8>>, k: int)
    requires
        0 <= k <= s.len(),
    ensures
        spec_join(s.skip(k)).len() <= spec_join(s).len(),
    decreases k,
{
    if k == 0 {
        assert(s.skip(0) =~~= s);
    } else {
        lemma_join_drop_le(s);
        lemma_join_skip_le(s.drop_first(), k - 1);
        assert(s.skip(k) =~~= s.drop_first().skip(k - 1));
    }
}

/// A proper suffix joins to something strictly shorter than the whole,
/// unless the whole is a single empty label.
proof fn lemma_suffix_strict(labels: Seq<Seq<u8>>, i: int)
    requires
        0 < i <= labels.len(),
        labels.len() == 1 ==> labels[0].len() >= 1,
    ensures
        spec_join(labels.skip(i)).len() < spec_join(labels).len(),
{
    if labels.len() == 1 {
        assert(labels.skip(1).len() == 0);
    } else {
        // the whole is first label ++ "." ++ rest, at least one byte longer
        // than the join of the rest; every suffix is a skip of the rest
        assert(spec_join(labels) == labels[0] + seq![DOT] + spec_join(labels.drop_first()));
        lemma_join_skip_le(labels.drop_first(), i - 1);
        assert(labels.skip(i) =~~= labels.drop_first().skip(i - 1));
    }
}

/// Packing never removes or changes a table entry; it only adds new ones.
proof fn lemma_pack_preserves_table(
    labels: Seq<Seq<u8>>,
    table: Map<Seq<u8>, u16>,
    off: int,
    key: Seq<u8>,
)
    requires
        table.contains_key(key),
        spec_pack_name(labels, table, off) is Ok,
    ensures
        spec_pack_name(labels, table, off)->Ok_0.1.contains_key(key),
        spec_pack_name(labels, table, off)->Ok_0.1[key] == table[key],
    decreases labels.len(),
{
    if labels.len() == 0 {
    } else {
        let suffix = spec_join(labels);
        if table.contains_key(suffix) {
        } else {
            let t1 = if 0 <= off < 0x4000 {
                table.insert(suffix, off as u16)
            } else {
                table
            };
            lemma_pack_preserves_table(labels.drop_first(), t1, off + 1 + labels[0].len(), key);
        }
    }
}

/// With no suffix in the table, packing fails exactly when some label is
/// longer than 63 bytes, and then with `LabelTooLong`.
pub proof fn lemma_pack_err_iff(labels: Seq<Seq<u8>>, table: Map<Seq<u8>, u16>, off: int)
    requires
        no_suffix_hit(labels, table),
    ensures
        spec_pack_name(labels, table, off) is Err <==> exists|i: int|
            0 <= i < labels.len() && #[trigger] labels[i].len() > 63,
        spec_pack_name(labels, table, off) is Err ==> spec_pack_name(labels, table, off)->Err_0
            == DnsError::LabelTooLong,
    decreases labels.len(),
{
    if labels.len() == 0 {
    } else {
        let suffix = spec_join(labels);
        assert(labels.skip(0) =~~= labels);
        assert(!table.contains_key(suffix));
        if labels[0].len() > 63 {
        } else {
            let t1 = if 0 <= off < 0x4000 {
                table.insert(suffix, off as u16)
            } else {
                table
            };
            let rest = labels.drop_first();
            assert forall|i: int| 0 <= i < rest.len() implies !t1.contains_key(
                spec_join(#[trigger] rest.skip(i)),
            ) by {
                assert(rest.skip(i) =~~= labels.skip(i + 1));
                assert(!table.contains_key(spec_join(labels.skip(i + 1))));
                if 0 <= off < 0x4000 {
                    // only the whole name was added, and with at least two
                    // labels here every proper suffix joins strictly shorter
                    lemma_suffix_strict(labels, i + 1);
                }
            }
            lemma_pack_err_iff(rest, t1, off + 1 + labels[0].len());
            if spec_pack_name(labels, table, off) is Err {
                let j = choose|i: int| 0 <= i < rest.len() && #[trigger] rest[i].len() > 63;
                assert(labels[j + 1].len() > 63);
            }
            if exists|i: int| 0 <= i < labels.len() && #[trigger] labels[i].len() > 63 {
                let j = choose|i: int| 0 <= i < labels.len() && #[trigger] labels[i].len() > 63;
                if j > 0 {
                    assert(rest[j - 1].len() > 63);
                }
            }
        }
    }
}

// ---------------------------------------------------------------------
// Decoding a name (spec level)
// ---------------------------------------------------------------------

/// Joins two partial names with a dot unless either side is empty.
pub open spec fn spec_append_name(a: Seq<u8>, b: Seq<u8>) -> Seq<u8> {
    if a.len() == 0 {
        b
    } else if b.len() == 0 {
        a
    } else {
        a + seq![DOT] + b
    }
}

/// The name read at `pos`, and the position parsing resumes at: one past
/// the zero terminator, or one past the first two-byte pointer.  `fuel`
/// bounds how many pointers may be followed; every jump target lies inside
/// the buffer, so a budget of one jump per buffer byte can only run out if
/// some offset is visited twice, which is a pointer cycle.
pub open spec fn spec_read_name(buf: Seq<u8>, pos: int, fuel: nat) -> Result<
    (Seq<u8>, int),
    DnsError,
>
    decreases fuel, buf.len() - pos,
{
    if pos < 0 || pos >= buf.len() {
        Err(DnsError::Truncated)
    } else if buf[pos] == 0 {
        Ok((Seq::empty(), pos + 1))
    } else if buf[pos] >= 0xC0 {
        if pos + 1 >= buf.len() {
            Err(DnsError::Truncated)
        } else if fuel == 0 {
            Err(DnsError::CompressionLoop)
        } else {
            let target = (buf[pos] - 0xC0) * 256 + buf[pos + 1];
            match spec_read_name(buf, target, (fuel - 1) as nat) {
                Ok((name, _)) => Ok((name, pos + 2)),
                Err(e) => Err(e),
            }
        }
    } else {
        let len = buf[pos] as int;
        if pos + 1 + len > buf.len() {
            Err(DnsError::Truncated)
        } else {
            let label = buf.subrange(pos + 1, pos + 1 + len);
            match spec_read_name(buf, pos + 1 + len, fuel) {
                Ok((rest, end)) => Ok((spec_append_name(label, rest), end)),
                Err(e) => Err(e),
            }
        }
    }
}

/// A successfully read name ends after its start and within the buffer.
pub proof fn lemma_read_name_end(buf: Seq<u8>, pos: int, fuel: nat)
    requires
        spec_read_name(buf, pos, fuel) is Ok,
    ensures
        pos < spec_read_name(buf, pos, fuel)->Ok_0.1 <= buf.len(),
    decreases fuel, buf.len() - pos,
{
    if pos < 0 || pos >= buf.len() {
    } else if buf[pos] == 0 {
    } else if buf[pos] >= 0xC0 {
    } else {
        let len = buf[pos] as int;
        if pos + 1 + len <= buf.len() {
            if spec_read_name(buf, pos + 1 + len, fuel) is Ok {
                lemma_read_name_end(buf, pos + 1 + len, fuel);
            }
        }
    }
}

/// Reading a literal encoding placed at `pos` yields exactly the joined
/// labels and stops right after the zero terminator, whatever the fuel.
pub proof fn lemma_read_literal(buf: Seq<u8>, pos: int, labels: Seq<Seq<u8>>, fuel: nat)
    requires
        wf_labels(labels),
        0 <= pos,
        pos + spec_literal_name(labels).len() <= buf.len(),
        buf.subrange(pos, pos + spec_literal_name(labels).len()) == spec_literal_name(labels),
    ensures
        spec_read_name(buf, pos, fuel) == Ok::<_, DnsError>(
            (spec_join(labels), pos + spec_literal_name(labels).len()),
        ),
    decreases labels.len(),
{
    let lit = spec_literal_name(labels);
    assert forall|k: int| 0 <= k < lit.len() implies buf[pos + k] == #[trigger] lit[k] by {
        assert(buf.subrange(pos, pos + lit.len())[k] == lit[k]);
    }
    if labels.len() == 0 {
        assert(buf[pos] == lit[0]);
    } else {
        let l0 = labels[0];
        let rest = labels.drop_first();
        let rlit = spec_literal_name(rest);
        assert(lit =~= seq![l0.len() as u8] + l0 + rlit);
        assert(buf[pos] == lit[0]);
        assert(buf[pos] == l0.len() as u8);
        assert(1 <= l0.len() <= 63);
        assert(buf[pos] != 0 && buf[pos] < 0xC0);
        let len = buf[pos] as int;
        assert(len == l0.len());
        assert(buf.subrange(pos + 1, pos + 1 + len) =~= l0) by {
            assert forall|j: int| 0 <= j < len implies buf.subrange(pos + 1, pos + 1 + len)[j]
                == l0[j] by {
                assert(buf[pos + (1 + j)] == lit[1 + j]);
                assert(lit[1 + j] == l0[j]);
            }
        }
        assert(buf.subrange(pos + 1 + len, pos + 1 + len + rlit.len()) =~= rlit) by {
            assert forall|j: int| 0 <= j < rlit.len() implies buf.subrange(
                pos + 1 + len,
                pos + 1 + len + rlit.len(),
            )[j] == rlit[j] by {
                assert(buf[pos + (1 + len + j)] == lit[1 + len + j]);
                assert(lit[1 + len + j] == rlit[j]);
            }
        }
        assert(wf_labels(rest));
        lemma_read_literal(buf, pos + 1 + len, rest, fuel);
        if rest.len() == 0 {
            assert(spec_join(rest).len() == 0);
            assert(spec_append_name(l0, spec_join(rest)) == l0);
            assert(spec_join(labels) == l0);
        } else {
            assert(spec_join(rest).len() > 0) by {
                lemma_join_len_lower(rest);
            }
            assert(spec_append_name(l0, spec_join(rest)) == l0 + seq![DOT] + spec_join(rest));
            assert(spec_join(labels) == l0 + seq![DOT] + spec_join(rest));
        }
    }
}

// ---------------------------------------------------------------------
// Round-trip theorems
// ---------------------------------------------------------------------

/// A name packed with no earlier suffix available decodes, from wherever
/// its bytes ended up, to exactly the name that was packed.
pub proof fn lemma_name_round_trip(
    name: Seq<u8>,
    table: Map<Seq<u8>, u16>,
    off: int,
    buf: Seq<u8>,
    pos: int,
    fuel: nat,
)
    requires
        wf_name(name),
        no_suffix_hit(spec_labels(name), table),
        spec_pack_name(spec_labels(name), table, off) is Ok,
        0 <= pos,
        pos + spec_pack_name(spec_labels(name), table, off)->Ok_0.0.len() <= buf.len(),
        buf.subrange(
            pos,
            pos + spec_pack_name(spec_labels(name), table, off)->Ok_0.0.len(),
        ) == spec_pack_name(spec_labels(name), table, off)->Ok_0.0,
    ensures
        spec_read_name(buf, pos, fuel) == Ok::<_, DnsError>(
            (name, pos + spec_pack_name(spec_labels(name), table, off)->Ok_0.0.len()),
        ),
{
    let labels = spec_labels(name);
    lemma_pack_fresh(labels, table, off);
    lemma_read_literal(buf, pos, labels, fuel);
    lemma_join_split(name);
}

/// Packing the same name twice compresses: the second occurrence is a
/// two-byte pointer, shorter than the first literal encoding, and both
/// decode to the identical name.
pub proof fn lemma_compression_round_trip(
    name: Seq<u8>,
    off1: int,
    off2: int,
    buf: Seq<u8>,
    fuel: nat,
)
    requires
        wf_name(name),
        name.len() > 0,
        0 <= off1 < 0x4000,
        spec_pack_name(spec_labels(name), Map::empty(), off1) is Ok,
        off1 + spec_pack_name(spec_labels(name), Map::empty(), off1)->Ok_0.0.len() <= buf.len(),
        buf.subrange(
            off1,
            off1 + spec_pack_name(spec_labels(name), Map::empty(), off1)->Ok_0.0.len(),
        ) == spec_pack_name(spec_labels(name), Map::empty(), off1)->Ok_0.0,
        spec_pack_name(
            spec_labels(name),
            spec_pack_name(spec_labels(name), Map::empty(), off1)->Ok_0.1,
            off2,
        ) is Ok,
        0 <= off2,
        off2 + 2 <= buf.len(),
        buf.subrange(off2, off2 + 2) == spec_pack_name(
            spec_labels(name),
            spec_pack_name(spec_labels(name), Map::empty(), off1)->Ok_0.1,
            off2,
        )->Ok_0.0,
        fuel >= 1,
    ensures
        // the first occurrence is the literal form, two bytes longer than the text
        spec_pack_name(spec_labels(name), Map::empty(), off1)->Ok_0.0.len() == name.len() + 2,
        // the second occurrence is a two-byte pointer: compression shortens
        spec_pack_name(
            spec_labels(name),
            spec_pack_name(spec_labels(name), Map::empty(), off1)->Ok_0.1,
            off2,
        )->Ok_0.0.len() == 2,
        // both decode to the identical name
        spec_read_name(buf, off1, fuel) == Ok::<_, DnsError>(
            (name, off1 + name.len() + 2),
        ),
        spec_read_name(buf, off2, fuel) == Ok::<_, DnsError>((name, off2 + 2)),
{
    let labels = spec_labels(name);
    let empty = Map::<Seq<u8>, u16>::empty();
    assert(no_suffix_hit(labels, empty));
    lemma_pack_fresh(labels, empty, off1);
    let b1 = spec_pack_name(labels, empty, off1)->Ok_0.0;
    let t1 = spec_pack_name(labels, empty, off1)->Ok_0.1;
    assert(labels.len() > 0) by {
        lemma_split_rec_len(name);
    }
    lemma_literal_len(labels);
    lemma_join_split(name);
    assert(b1.len() == name.len() + 2);
    lemma_name_round_trip(name, empty, off1, buf, off1, fuel);

    // second occurrence: the whole name is in the table, so it packs to a
    // pointer at off1
    assert(t1.contains_key(spec_join(labels)));
    assert(t1[spec_join(labels)] == off1 as u16);
    let b2 = spec_pack_name(labels, t1, off2)->Ok_0.0;
    let p = off1;
    assert(b2 =~= seq![(192 + p / 256) as u8, (p % 256) as u8]);
    assert(b2.len() == 2);

    // decoding the pointer jumps to off1 and reads the literal name
    assert(buf[off2] == (192 + p / 256) as u8);
    assert(buf[off2 + 1] == (p % 256) as u8);
    assert(0 <= p / 256 < 64);
    assert(buf[off2] >= 0xC0);
    assert(buf[off2] != 0);
    let target = (buf[off2] - 0xC0) * 256 + buf[off2 + 1];
    assert(target == p);
    lemma_name_round_trip(name, empty, off1, buf, off1, (fuel - 1) as nat);
}

// ---------------------------------------------------------------------
// The name table
// ---------------------------------------------------------------------

/// The interpretation of an association list as a map.
pub open spec fn map_of(s: Seq<(Seq<u8>, u16)>) -> Map<Seq<u8>, u16>
    decreases s.len(),
{
    if s.len() == 0 {
        Map::empty()
    } else {
        map_of(s.drop_last()).insert(s.last().0, s.last().1)
    }
}

/// Records at which absolute offset each name suffix was first written in
/// the message being encoded.  Lives for exactly one encode call.
pub struct NameTable {
    entries: Vec<(Vec<u8>, u16)>,
}

impl NameTable {
    /// The entries with their keys as byte sequences.
    pub closed spec fn entries_view(&self) -> Seq<(Seq<u8>, u16)> {
        Seq::new(self.entries@.len(), |i: int| (self.entries@[i].0@, self.entries@[i].1))
    }

    /// The table as a map from suffix to offset.
    pub closed spec fn view(&self) -> Map<Seq<u8>, u16> {
        map_of(self.entries_view())
    }

    /// Well-formed: distinct keys, every offset below the pointer limit.
    pub closed spec fn inv(&self) -> bool {
        &&& forall|i: int, j: int|
            0 <= i < j < self.entries_view().len() ==> #[trigger] self.entries_view()[i].0
                != #[trigger] self.entries_view()[j].0
        &&& forall|i: int|
            0 <= i < self.entries_view().len() ==> (#[trigger] self.entries_view()[i].1) < 0x4000
    }

    pub fn new() -> (r: NameTable)
        ensures
            r.inv(),
            r@ == Map::<Seq<u8>, u16>::empty(),
    {
        let r = NameTable { entries: Vec::new() };
        proof {
            assert(r.entries_view() =~= Seq::empty());
        }
        r
    }

    /// Looks a suffix up.
    pub fn get(&self, key: &[u8]) -> (r: Option<u16>)
        requires
            self.inv(),
        ensures
            match r {
                Some(p) => self@.contains_key(key@) && self@[key@] == p && p < 0x4000,
                None => !self@.contains_key(key@),
            },
    {
        let n = self.entries.len();
        let mut i: usize = 0;
        while i < n
            invariant
                n == self.entries@.len(),
                0 <= i <= n,
                self.inv(),
                forall|j: int| 0 <= j < i ==> #[trigger] self.entries_view()[j].0 != key@,
            decreases n - i,
        {
            if bytes_eq(self.entries[i].0.as_slice(), key) {
                let p = self.entries[i].1;
                proof {
                    lemma_map_of_found(self.entries_view(), i as int);
                }
                return Some(p);
            }
            i += 1;
        }
        proof {
            lemma_map_of_missing(self.entries_view(), key@);
        }
        None
    }

    /// Records a new suffix at its offset.
    pub fn insert(&mut self, key: Vec<u8>, off: u16)
        requires
            old(self).inv(),
            !old(self)@.contains_key(key@),
            off < 0x4000,
        ensures
            final(self).inv(),
            final(self)@ == old(self)@.insert(key@, off),
    {
        let ghost kv = key@;
        proof {
            lemma_map_of_missing_all(self.entries_view(), kv);
        }
        self.entries.push((key, off));
        proof {
            assert(self.entries_view() =~= old(self).entries_view().push((kv, off)));
            assert(self.entries_view().drop_last() =~= old(self).entries_view());
        }
    }
}

/// If entry `i` holds a key, the map contains that key with some entry's
/// value; with distinct keys, entry `i`'s own value.
proof fn lemma_map_of_found(s: Seq<(Seq<u8>, u16)>, i: int)
    requires
        0 <= i < s.len(),
        forall|a: int, b: int| 0 <= a < b < s.len() ==> #[trigger] s[a].0 != #[trigger] s[b].0,
    ensures
        map_of(s).contains_key(s[i].0),
        map_of(s)[s[i].0] == s[i].1,
    decreases s.len(),
{
    if i == s.len() - 1 {
    } else {
        assert(s.drop_last() =~= s.subrange(0, s.len() - 1));
        lemma_map_of_found(s.drop_last(), i);
        assert(s[i].0 != s.last().0);
    }
}

/// A key held by no entry is absent from the map.
proof fn lemma_map_of_missing(s: Seq<(Seq<u8>, u16)>, key: Seq<u8>)
    requires
        forall|j: int| 0 <= j < s.len() ==> #[trigger] s[j].0 != key,
    ensures
        !map_of(s).contains_key(key),
    decreases s.len(),
{
    if s.len() == 0 {
    } else {
        assert(s.drop_last() =~= s.subrange(0, s.len() - 1));
        lemma_map_of_missing(s.drop_last(), key);
    }
}

/// A key absent from the map is held by no entry.
proof fn lemma_map_of_missing_all(s: Seq<(Seq<u8>, u16)>, key: Seq<u8>)
    requires
        !map_of(s).contains_key(key),
    ensures
        forall|j: int| 0 <= j < s.len() ==> #[trigger] s[j].0 != key,
    decreases s.len(),
{
    if s.len() == 0 {
    } else {
        assert(s.drop_last() =~= s.subrange(0, s.len() - 1));
        lemma_map_of_missing_all(s.drop_last(), key);
        assert(map_of(s).contains_key(s.last().0));
        assert forall|j: int| 0 <= j < s.len() implies #[trigger] s[j].0 != key by {
            if j < s.len() - 1 {
                assert(s.drop_last()[j] == s[j]);
            } else {
                assert(s[j] == s.last());
            }
        }
    }
}

// ---------------------------------------------------------------------
// Executable codec
// ---------------------------------------------------------------------

/// Splits a dotted name into its labels.
pub fn split_name(name: &[u8]) -> (r: Vec<Vec<u8>>)
    ensures
        seq_views(r@) == spec_labels(name@),
{
    let mut labels: Vec<Vec<u8>> = Vec::new();
    let n = name.len();
    if n == 0 {
        proof {
            assert(seq_views(labels@) =~~= spec_labels(name@));
        }
        return labels;
    }
    let mut start: usize = 0;
    proof {
        assert(name@.subrange(0, n as int) =~= name@);
        assert(seq_views(labels@) + split_rec(name@) =~~= split_rec(name@));
    }
    loop
        invariant
            n == name@.len(),
            n > 0,
            0 <= start <= n,
            split_rec(name@) =~~= seq_views(labels@) + split_rec(
                name@.subrange(start as int, n as int),
            ),
        decreases n - start,
    {
        let mut i: usize = start;
        while i < n && name[i] != DOT
            invariant
                n == name@.len(),
                start <= i <= n,
                forall|j: int| start <= j < i ==> name@[j] != DOT,
            decreases n - i,
        {
            i += 1;
        }
        let label = vstd::slice::slice_to_vec(vstd::slice::slice_subrange(name, start, i));
        labels.push(label);
        let ghost a = name@.subrange(start as int, i as int);
        proof {
            assert(dot_free(a));
        }
        if i == n {
            proof {
                lemma_split_dot_free(a);
                assert(seq_views(labels@) =~~= seq_views(labels@.drop_last()) + seq![a]);
                assert(split_rec(name@) =~~= seq_views(labels@));
                assert(spec_labels(name@) == split_rec(name@));
            }
            return labels;
        }
        proof {
            let t = name@.subrange(i + 1, n as int);
            assert(name@.subrange(start as int, n as int) =~= a + seq![DOT] + t) by {
                assert(name@[i as int] == DOT);
            }
            lemma_split_concat(a, t);
            assert(seq_views(labels@) =~~= seq_views(labels@.drop_last()) + seq![a]);
            assert(split_rec(name@) =~~= seq_views(labels@) + split_rec(t));
        }
        start = i + 1;
    }
}

/// Joins the labels from index `i` on back into a dotted name.
pub fn join_from(labels: &Vec<Vec<u8>>, i: usize) -> (r: Vec<u8>)
    requires
        i <= labels@.len(),
    ensures
        r@ == spec_join(seq_views(labels@).skip(i as int)),
    decreases labels@.len() - i,
{
    let n = labels.len();
    if i >= n {
        let r: Vec<u8> = Vec::new();
        proof {
            assert(seq_views(labels@).skip(i as int).len() == 0);
        }
        r
    } else if i + 1 == n {
        let r = vstd::slice::slice_to_vec(labels[i].as_slice());
        proof {
            let s = seq_views(labels@).skip(i as int);
            assert(s.len() == 1);
            assert(s[0] == labels@[i as int]@);
        }
        r
    } else {
        let mut r = vstd::slice::slice_to_vec(labels[i].as_slice());
        r.push(DOT);
        let mut rest = join_from(labels, i + 1);
        r.append(&mut rest);
        proof {
            let s = seq_views(labels@).skip(i as int);
            assert(s.len() >= 2);
            assert(s[0] == labels@[i as int]@);
            assert(s.drop_first() =~~= seq_views(labels@).skip(i as int + 1));
            assert(r@ =~= s[0] + seq![DOT] + spec_join(s.drop_first()));
        }
        r
    }
}

/// Packs already-split labels at absolute offset `off`, consulting and
/// extending the table of earlier suffixes.
pub fn pack_labels(labels: &Vec<Vec<u8>>, table: &mut NameTable, off: usize) -> (r: Result<
    Vec<u8>,
    DnsError,
>)
    requires
        old(table).inv(),
    ensures
        final(table).inv(),
        match (r, spec_pack_name(seq_views(labels@), old(table)@, off as int)) {
            (Ok(b), Ok(sp)) => b@ == sp.0 && final(table)@ == sp.1,
            (Err(e1), Err(e2)) => e1 == e2,
            _ => false,
        },
{
    let mut out: Vec<u8> = Vec::new();
    let mut i: usize = 0;
    let mut cap: usize = if off < 0x4000 {
        off
    } else {
        0x4000
    };
    let ghost mut g_off: int = off as int;
    let n = labels.len();
    proof {
        assert(seq_views(labels@).skip(0) =~~= seq_views(labels@));
        let inner = spec_pack_name(seq_views(labels@), old(table)@, off as int);
        if inner is Ok {
            assert(Seq::<u8>::empty() + inner->Ok_0.0 =~= inner->Ok_0.0);
        }
    }
    loop
        invariant
            table.inv(),
            n == labels@.len(),
            0 <= i <= n,
            0 <= g_off,
            g_off < 0x4000 ==> cap == g_off,
            g_off >= 0x4000 ==> cap == 0x4000,
            spec_pack_name(seq_views(labels@), old(table)@, off as int) == (match spec_pack_name(
                seq_views(labels@).skip(i as int),
                table@,
                g_off,
            ) {
                Ok(p) => Ok::<(Seq<u8>, Map<Seq<u8>, u16>), DnsError>((out@ + p.0, p.1)),
                Err(e) => Err(e),
            }),
        decreases n - i,
    {
        let ghost s = seq_views(labels@).skip(i as int);
        let ghost out_old = out@;
        if i == n {
            out.push(0);
            proof {
                assert(s.len() == 0);
                assert(out@ =~= out_old + seq![0u8]);
            }
            return Ok(out);
        }
        let suffix = join_from(labels, i);
        proof {
            assert(s.len() > 0);
            assert(s[0] == labels@[i as int]@);
        }
        match table.get(suffix.as_slice()) {
            Some(p) => {
                let hi: u16 = 192 + p / 256;
                out.push(hi as u8);
                out.push((p % 256) as u8);
                proof {
                    let pi = table@[suffix@] as int;
                    assert(out@ =~= out_old + seq![(192 + pi / 256) as u8, (pi % 256) as u8]);
                }
                return Ok(out);
            },
            None => {
                let len = labels[i].len();
                if len > 63 {
                    return Err(DnsError::LabelTooLong);
                }
                out.push(len as u8);
                push_range(&mut out, labels[i].as_slice(), 0, len);
                proof {
                    assert(labels@[i as int]@.subrange(0, len as int) =~= labels@[i as int]@);
                    assert(out@ =~= out_old + (seq![s[0].len() as u8] + s[0]));
                }
                if cap < 0x4000 {
                    table.insert(suffix, cap as u16);
                }
                let ghost old_off = g_off;
                proof {
                    g_off = g_off + 1 + len as int;
                }
                if cap < 0x4000 {
                    cap = cap + 1 + len;
                    if cap > 0x4000 {
                        cap = 0x4000;
                    }
                }
                i += 1;
                proof {
                    assert(s.drop_first() =~~= seq_views(labels@).skip(i as int));
                    let inner = spec_pack_name(seq_views(labels@).skip(i as int), table@, g_off);
                    if inner is Ok {
                        let b = inner->Ok_0.0;
                        assert(out_old + (seq![s[0].len() as u8] + s[0] + b) =~= out@ + b);
                    }
                }
            },
        }
    }
}

/// Packs a dotted name at absolute offset `off`: literal labels for unseen
/// suffixes, a two-byte pointer for a suffix already in the table.
pub fn pack_domain(domain: &[u8], table: &mut NameTable, off: usize) -> (r: Result<
    Vec<u8>,
    DnsError,
>)
    requires
        old(table).inv(),
    ensures
        final(table).inv(),
        match (r, spec_pack_name(spec_labels(domain@), old(table)@, off as int)) {
            (Ok(b), Ok(sp)) => b@ == sp.0 && final(table)@ == sp.1,
            (Err(e1), Err(e2)) => e1 == e2,
            _ => false,
        },
{
    let labels = split_name(domain);
    pack_labels(&labels, table, off)
}

/// Joining one more fragment on the right associates.
proof fn lemma_append_name_assoc(a: Seq<u8>, l: Seq<u8>, r: Seq<u8>)
    requires
        l.len() > 0,
    ensures
        spec_append_name(a, spec_append_name(l, r)) == spec_append_name(spec_append_name(a, l), r),
{
    if a.len() == 0 {
    } else if r.len() == 0 {
    } else {
        assert(spec_append_name(a, spec_append_name(l, r)) =~= a + seq![DOT] + (l + seq![DOT]
            + r));
        assert(spec_append_name(spec_append_name(a, l), r) =~= (a + seq![DOT] + l) + seq![DOT]
            + r);
        assert(a + seq![DOT] + (l + seq![DOT] + r) =~= (a + seq![DOT] + l) + seq![DOT] + r);
    }
}

/// Unpacks the name at `off`, following compression pointers.  Returns the
/// name and the number of bytes the name occupies at `off` itself (up to
/// its zero terminator, or up to the first pointer).  A pointer chain that
/// revisits an offset can never finish and is reported as
/// `CompressionLoop`; every read is bounds-checked, so a truncated label or
/// pointer is reported as `Truncated`.
pub fn unpack_domain(buf: &[u8], off: usize) -> (r: Result<(Vec<u8>, usize), DnsError>)
    ensures
        match (r, spec_read_name(buf@, off as int, buf@.len() as nat)) {
            (Ok(p), Ok(sp)) => p.0@ == sp.0 && off + p.1 == sp.1,
            (Err(e1), Err(e2)) => e1 == e2,
            _ => false,
        },
{
    let n = buf.len();
    let mut acc: Vec<u8> = Vec::new();
    let mut pos: usize = off;
    let mut fuel: usize = n;
    let mut jumped = false;
    let mut jend: usize = 0;
    loop
        invariant
            n == buf@.len(),
            !jumped ==> pos >= off,
            jumped ==> off < jend <= n,
            match spec_read_name(buf@, pos as int, fuel as nat) {
                Ok(p) => spec_read_name(buf@, off as int, n as nat) == Ok::<
                    (Seq<u8>, int),
                    DnsError,
                >(
                    (
                        spec_append_name(acc@, p.0),
                        if jumped {
                            jend as int
                        } else {
                            p.1
                        },
                    ),
                ),
                Err(e) => spec_read_name(buf@, off as int, n as nat) == Err::<
                    (Seq<u8>, int),
                    DnsError,
                >(e),
            },
        decreases fuel, n - pos,
    {
        if pos >= n {
            return Err(DnsError::Truncated);
        }
        let b = buf[pos];
        if b == 0 {
            let end = if jumped {
                jend
            } else {
                pos + 1
            };
            proof {
                assert(spec_append_name(acc@, Seq::<u8>::empty()) == acc@);
            }
            return Ok((acc, end - off));
        } else if b >= 0xC0 {
            if pos + 1 >= n {
                return Err(DnsError::Truncated);
            }
            if fuel == 0 {
                return Err(DnsError::CompressionLoop);
            }
            let target = ((b - 192) as usize) * 256 + (buf[pos + 1] as usize);
            if !jumped {
                jumped = true;
                jend = pos + 2;
            }
            fuel = fuel - 1;
            pos = target;
        } else {
            let len = b as usize;
            if len > n - pos - 1 {
                return Err(DnsError::Truncated);
            }
            let ghost old_acc = acc@;
            let ghost label = buf@.subrange(pos + 1, pos as int + 1 + len as int);
            if acc.len() > 0 {
                acc.push(DOT);
            }
            push_range(&mut acc, buf, pos + 1, pos + 1 + len);
            proof {
                assert(acc@ =~= spec_append_name(old_acc, label));
                if spec_read_name(buf@, pos as int + 1 + len as int, fuel as nat) is Ok {
                    let rest = spec_read_name(
                        buf@,
                        pos as int + 1 + len as int,
                        fuel as nat,
                    )->Ok_0.0;
                    lemma_append_name_assoc(old_acc, label, rest);
                }
            }
            pos = pos + 1 + len;
        }
    }
}

/// Byte-vector equality.
pub fn bytes_eq(a: &[u8], b: &[u8]) -> (r: bool)
    ensures
        r <==> a@ == b@,
{
    if a.len() != b.len() {
        proof {
            assert(a@.len() != b@.len());
        }
        return false;
    }
    let n = a.len();
    let mut i: usize = 0;
    while i < n
        invariant
            n == a@.len() == b@.len(),
            0 <= i <= n,
            forall|j: int| 0 <= j < i ==> a@[j] == b@[j],
        decreases n - i,
    {
        if a[i] != b[i] {
            return false;
        }
        i += 1;
    }
    proof {
        assert(a@ =~= b@);
    }
    true
}

} // verus!
