//! The catalog: a JSON description of every sensor and its readings,
//! emitted only on structural change.  The byte sequence is pinned exactly:
//! object keys in declaration order, numbers in decimal, strings escaped as
//! `escape_byte` says, and each sensor carrying the element index into the
//! frame's value array where its reading pairs begin.

use vstd::prelude::*;
use crate::layout::SensorKey;
use crate::text::{json_escaped, push_escaped, trim_str, trimmed, utf8_check, utf8_ok};
use crate::wire::{dec_digits, push_decimal};

verus! {

/// `{"updatedCount":`
pub open spec fn lit_updated() -> Seq<u8> {
    seq![123u8, 34, 117, 112, 100, 97, 116, 101, 100, 67, 111, 117, 110, 116, 34, 58]
}

fn push_lit_updated(out: &mut Vec<u8>)
    ensures
        final(out)@ == old(out)@ + lit_updated(),
{
    out.push(123);
    out.push(34);
    out.push(117);
    out.push(112);
    out.push(100);
    out.push(97);
    out.push(116);
    out.push(101);
    out.push(100);
    out.push(67);
    out.push(111);
    out.push(117);
    out.push(110);
    out.push(116);
    out.push(34);
    out.push(58);
    proof {
        assert(out@ =~= old(out)@ + lit_updated());
    }
}

/// `,"sensors":[`
pub open spec fn lit_sensors() -> Seq<u8> {
    seq![44u8, 34, 115, 101, 110, 115, 111, 114, 115, 34, 58, 91]
}

fn push_lit_sensors(out: &mut Vec<u8>)
    ensures
        final(out)@ == old(out)@ + lit_sensors(),
{
    out.push(44);
    out.push(34);
    out.push(115);
    out.push(101);
    out.push(110);
    out.push(115);
    out.push(111);
    out.push(114);
    out.push(115);
    out.push(34);
    out.push(58);
    out.push(91);
    proof {
        assert(out@ =~= old(out)@ + lit_sensors());
    }
}

/// `]}`
pub open spec fn lit_end() -> Seq<u8> {
    seq![93u8, 125]
}

fn push_lit_end(out: &mut Vec<u8>)
    ensures
        final(out)@ == old(out)@ + lit_end(),
{
    out.push(93);
    out.push(125);
    proof {
        assert(out@ =~= old(out)@ + lit_end());
    }
}

/// `{"id":`
pub open spec fn lit_id() -> Seq<u8> {
    seq![123u8, 34, 105, 100, 34, 58]
}

fn push_lit_id(out: &mut Vec<u8>)
    ensures
        final(out)@ == old(out)@ + lit_id(),
{
    out.push(123);
    out.push(34);
    out.push(105);
    out.push(100);
    out.push(34);
    out.push(58);
    proof {
        assert(out@ =~= old(out)@ + lit_id());
    }
}

/// `,"instance":`
pub open spec fn lit_instance() -> Seq<u8> {
    seq![44u8, 34, 105, 110, 115, 116, 97, 110, 99, 101, 34, 58]
}

fn push_lit_instance(out: &mut Vec<u8>)
    ensures
        final(out)@ == old(out)@ + lit_instance(),
{
    out.push(44);
    out.push(34);
    out.push(105);
    out.push(110);
    out.push(115);
    out.push(116);
    out.push(97);
    out.push(110);
    out.push(99);
    out.push(101);
    out.push(34);
    out.push(58);
    proof {
        assert(out@ =~= old(out)@ + lit_instance());
    }
}

/// `,"name":"`
pub open spec fn lit_name() -> Seq<u8> {
    seq![44u8, 34, 110, 97, 109, 101, 34, 58, 34]
}

fn push_lit_name(out: &mut Vec<u8>)
    ensures
        final(out)@ == old(out)@ + lit_name(),
{
    out.push(44);
    out.push(34);
    out.push(110);
    out.push(97);
    out.push(109);
    out.push(101);
    out.push(34);
    out.push(58);
    out.push(34);
    proof {
        assert(out@ =~= old(out)@ + lit_name());
    }
}

/// `","readings":[`
pub open spec fn lit_readings() -> Seq<u8> {
    seq![34u8, 44, 34, 114, 101, 97, 100, 105, 110, 103, 115, 34, 58, 91]
}

fn push_lit_readings(out: &mut Vec<u8>)
    ensures
        final(out)@ == old(out)@ + lit_readings(),
{
    out.push(34);
    out.push(44);
    out.push(34);
    out.push(114);
    out.push(101);
    out.push(97);
    out.push(100);
    out.push(105);
    out.push(110);
    out.push(103);
    out.push(115);
    out.push(34);
    out.push(58);
    out.push(91);
    proof {
        assert(out@ =~= old(out)@ + lit_readings());
    }
}

/// `","unit":"`
pub open spec fn lit_unit() -> Seq<u8> {
    seq![34u8, 44, 34, 117, 110, 105, 116, 34, 58, 34]
}

fn push_lit_unit(out: &mut Vec<u8>)
    ensures
        final(out)@ == old(out)@ + lit_unit(),
{
    out.push(34);
    out.push(44);
    out.push(34);
    out.push(117);
    out.push(110);
    out.push(105);
    out.push(116);
    out.push(34);
    out.push(58);
    out.push(34);
    proof {
        assert(out@ =~= old(out)@ + lit_unit());
    }
}

/// `"}`
pub open spec fn lit_quote_brace() -> Seq<u8> {
    seq![34u8, 125]
}

fn push_lit_quote_brace(out: &mut Vec<u8>)
    ensures
        final(out)@ == old(out)@ + lit_quote_brace(),
{
    out.push(34);
    out.push(125);
    proof {
        assert(out@ =~= old(out)@ + lit_quote_brace());
    }
}

/// `],"offset":`
pub open spec fn lit_offset() -> Seq<u8> {
    seq![93u8, 44, 34, 111, 102, 102, 115, 101, 116, 34, 58]
}

fn push_lit_offset(out: &mut Vec<u8>)
    ensures
        final(out)@ == old(out)@ + lit_offset(),
{
    out.push(93);
    out.push(44);
    out.push(34);
    out.push(111);
    out.push(102);
    out.push(102);
    out.push(115);
    out.push(101);
    out.push(116);
    out.push(34);
    out.push(58);
    proof {
        assert(out@ =~= old(out)@ + lit_offset());
    }
}

/// `}`
pub open spec fn lit_brace() -> Seq<u8> {
    seq![125u8]
}

fn push_lit_brace(out: &mut Vec<u8>)
    ensures
        final(out)@ == old(out)@ + lit_brace(),
{
    out.push(125);
    proof {
        assert(out@ =~= old(out)@ + lit_brace());
    }
}

/// `,`
pub open spec fn lit_comma() -> Seq<u8> {
    seq![44u8]
}

fn push_lit_comma(out: &mut Vec<u8>)
    ensures
        final(out)@ == old(out)@ + lit_comma(),
{
    out.push(44);
    proof {
        assert(out@ =~= old(out)@ + lit_comma());
    }
}

/// One reading object appended to `pre`: `{"id":N,"name":"E","unit":"E"}`.
pub open spec fn reading_entry_json(pre: Seq<u8>, rid: u32, rname: Seq<u8>, runit: Seq<u8>) -> Seq<u8> {
    ((((((pre + lit_id()) + dec_digits(rid as nat)) + lit_name()) + json_escaped(
        trimmed(rname),
    )) + lit_unit()) + json_escaped(trimmed(runit))) + lit_quote_brace()
}

/// The comma-separated reading objects of readings `start..end`, appended to
/// `pre`.
pub open spec fn readings_json(
    pre: Seq<u8>,
    rids: Seq<u32>,
    rnames: Seq<Vec<u8>>,
    runits: Seq<Vec<u8>>,
    start: int,
    end: int,
) -> Seq<u8>
    decreases end - start,
{
    if end <= start {
        pre
    } else {
        reading_entry_json(
            if end - 1 > start {
                readings_json(pre, rids, rnames, runits, start, end - 1) + lit_comma()
            } else {
                pre
            },
            rids[end - 1],
            rnames[end - 1]@,
            runits[end - 1]@,
        )
    }
}

/// Where the readings of the sensor after group `g` start, or the table's
/// length after the last group.
pub open spec fn spec_group_end(offsets: Seq<usize>, total: int, g: int) -> int {
    if g == offsets.len() - 1 {
        total
    } else {
        offsets[g + 1] as int
    }
}

/// One sensor object appended to `pre`, covering readings `start..end`:
/// `{"id":N,"instance":N,"name":"E","readings":[...],"offset":N}` with
/// `offset == 2 + 2 * start`.
pub open spec fn sensor_entry_json(
    pre: Seq<u8>,
    key: SensorKey,
    name: Seq<u8>,
    rids: Seq<u32>,
    rnames: Seq<Vec<u8>>,
    runits: Seq<Vec<u8>>,
    start: int,
    end: int,
) -> Seq<u8> {
    ((readings_json(
        ((((((pre + lit_id()) + dec_digits(key.id as nat)) + lit_instance()) + dec_digits(
            key.instance as nat,
        )) + lit_name()) + json_escaped(trimmed(name))) + lit_readings(),
        rids,
        rnames,
        runits,
        start,
        end,
    ) + lit_offset()) + dec_digits((2 + 2 * start) as nat)) + lit_brace()
}

/// The comma-separated sensor objects of groups `0..gend`, appended to `pre`.
pub open spec fn sensors_json(
    pre: Seq<u8>,
    ids: Seq<SensorKey>,
    names: Seq<Vec<u8>>,
    offsets: Seq<usize>,
    rids: Seq<u32>,
    rnames: Seq<Vec<u8>>,
    runits: Seq<Vec<u8>>,
    total: int,
    gend: int,
) -> Seq<u8>
    decreases gend,
{
    if gend <= 0 {
        pre
    } else {
        sensor_entry_json(
            if gend - 1 > 0 {
                sensors_json(pre, ids, names, offsets, rids, rnames, runits, total, gend - 1)
                    + lit_comma()
            } else {
                pre
            },
            ids[gend - 1],
            names[gend - 1]@,
            rids,
            rnames,
            runits,
            offsets[gend - 1] as int,
            spec_group_end(offsets, total, gend - 1),
        )
    }
}

/// The whole catalog:
/// `{"updatedCount":N,"sensors":[...]}`.
pub open spec fn catalog_json(
    count: u64,
    ids: Seq<SensorKey>,
    names: Seq<Vec<u8>>,
    offsets: Seq<usize>,
    rids: Seq<u32>,
    rnames: Seq<Vec<u8>>,
    runits: Seq<Vec<u8>>,
    total: int,
) -> Seq<u8> {
    sensors_json(
        (lit_updated() + dec_digits(count as nat)) + lit_sensors(),
        ids,
        names,
        offsets,
        rids,
        rnames,
        runits,
        total,
        offsets.len() as int,
    ) + lit_end()
}

/// Every name the catalog would print is valid UTF-8 once trimmed: the
/// sensor names of the listed groups, and every reading's name and unit.
pub open spec fn catalog_decodable(
    names: Seq<Vec<u8>>,
    offsets: Seq<usize>,
    rnames: Seq<Vec<u8>>,
    runits: Seq<Vec<u8>>,
    total: int,
) -> bool {
    &&& forall|g: int| 0 <= g < offsets.len() ==> #[trigger] utf8_ok(trimmed(names[g]@))
    &&& (offsets.len() > 0 ==> forall|j: int|
        0 <= j < total ==> #[trigger] utf8_ok(trimmed(rnames[j]@)) && utf8_ok(
            trimmed(runits[j]@),
        ))
}

/// Readings checked before group `g` is serialized: everything up to the end
/// of group `g - 1`.
pub open spec fn checked_through(offsets: Seq<usize>, total: int, g: int) -> int {
    if g <= 0 {
        0
    } else {
        spec_group_end(offsets, total, g - 1)
    }
}

/// Serializes the catalog, or returns `None` when some name is not valid
/// UTF-8 once trimmed.
#[verifier::rlimit(60)]
pub fn build_catalog(
    count: u64,
    ids: &Vec<SensorKey>,
    names: &Vec<Vec<u8>>,
    offsets: &Vec<usize>,
    rids: &Vec<u32>,
    rnames: &Vec<Vec<u8>>,
    runits: &Vec<Vec<u8>>,
) -> (r: Option<Vec<u8>>)
    requires
        offsets@.len() <= ids@.len(),
        ids@.len() == names@.len(),
        rids@.len() == rnames@.len(),
        rids@.len() == runits@.len(),
        rids@.len() <= 0xffffffff,
        forall|g: int| 0 <= g < offsets@.len() ==> #[trigger] offsets@[g] <= rids@.len(),
        forall|g: int|
            0 <= g && g + 1 < offsets@.len() ==> #[trigger] offsets@[g] <= offsets@[g + 1],
        offsets@.len() > 0 ==> offsets@[0] == 0,
    ensures
        (r is Some) == catalog_decodable(names@, offsets@, rnames@, runits@, rids@.len() as int),
        r matches Some(c) ==> c@ == catalog_json(
            count,
            ids@,
            names@,
            offsets@,
            rids@,
            rnames@,
            runits@,
            rids@.len() as int,
        ),
{
    let gcount = offsets.len();
    let total = rids.len();
    let mut out: Vec<u8> = Vec::new();
    push_lit_updated(&mut out);
    push_decimal(&mut out, count);
    push_lit_sensors(&mut out);
    proof {
        assert(out@ =~= (lit_updated() + dec_digits(count as nat)) + lit_sensors());
    }
    let ghost pre0 = out@;
    let mut g: usize = 0;
    while g < gcount
        invariant
            g <= gcount,
            gcount == offsets@.len(),
            total == rids@.len(),
            offsets@.len() <= ids@.len(),
            ids@.len() == names@.len(),
            rids@.len() == rnames@.len(),
            rids@.len() == runits@.len(),
            rids@.len() <= 0xffffffff,
            forall|k: int| 0 <= k < offsets@.len() ==> #[trigger] offsets@[k] <= rids@.len(),
            forall|k: int|
                0 <= k && k + 1 < offsets@.len() ==> #[trigger] offsets@[k] <= offsets@[k + 1],
            offsets@.len() > 0 ==> offsets@[0] == 0,
            pre0 == (lit_updated() + dec_digits(count as nat)) + lit_sensors(),
            out@ == sensors_json(
                pre0,
                ids@,
                names@,
                offsets@,
                rids@,
                rnames@,
                runits@,
                total as int,
                g as int,
            ),
            forall|k: int| 0 <= k < g ==> #[trigger] utf8_ok(trimmed(names@[k]@)),
            forall|t: int|
                0 <= t < checked_through(offsets@, total as int, g as int)
                    ==> #[trigger] utf8_ok(trimmed(rnames@[t]@)),
            forall|t: int|
                0 <= t < checked_through(offsets@, total as int, g as int)
                    ==> #[trigger] utf8_ok(trimmed(runits@[t]@)),
        decreases gcount - g,
    {
        let start = offsets[g];
        let end = if g + 1 == gcount {
            total
        } else {
            offsets[g + 1]
        };
        if g > 0 {
            push_lit_comma(&mut out);
        }
        let ghost preg = out@;
        push_lit_id(&mut out);
        let key = ids[g];
        push_decimal(&mut out, key.id as u64);
        push_lit_instance(&mut out);
        push_decimal(&mut out, key.instance as u64);
        push_lit_name(&mut out);
        let nm = trim_str(vstd::std_specs::vec::vec_index(names, g).as_slice());
        if !utf8_check(nm) {
            return None;
        }
        push_escaped(&mut out, nm);
        push_lit_readings(&mut out);
        let ghost prer = out@;
        let mut j: usize = start;
        while j < end
            invariant
                start <= j <= end,
                end <= total,
                offsets@.len() > 0,
                total == rids@.len(),
                rids@.len() == rnames@.len(),
                rids@.len() == runits@.len(),
                out@ == readings_json(prer, rids@, rnames@, runits@, start as int, j as int),
                forall|t: int| start <= t < j ==> #[trigger] utf8_ok(trimmed(rnames@[t]@)),
                forall|t: int| start <= t < j ==> #[trigger] utf8_ok(trimmed(runits@[t]@)),
            decreases end - j,
        {
            if j > start {
                push_lit_comma(&mut out);
            }
            push_lit_id(&mut out);
            push_decimal(&mut out, rids[j] as u64);
            push_lit_name(&mut out);
            let rn = trim_str(vstd::std_specs::vec::vec_index(rnames, j).as_slice());
            if !utf8_check(rn) {
                return None;
            }
            push_escaped(&mut out, rn);
            push_lit_unit(&mut out);
            let ru = trim_str(vstd::std_specs::vec::vec_index(runits, j).as_slice());
            if !utf8_check(ru) {
                return None;
            }
            push_escaped(&mut out, ru);
            push_lit_quote_brace(&mut out);
            proof {
                assert(utf8_ok(trimmed(rnames@[j as int]@)));
                assert(utf8_ok(trimmed(runits@[j as int]@)));
                assert(out@ == reading_entry_json(
                    if j > start {
                        readings_json(prer, rids@, rnames@, runits@, start as int, j as int)
                            + lit_comma()
                    } else {
                        prer
                    },
                    rids@[j as int],
                    rnames@[j as int]@,
                    runits@[j as int]@,
                ));
                assert(out@ == readings_json(
                    prer,
                    rids@,
                    rnames@,
                    runits@,
                    start as int,
                    j as int + 1,
                ));
            }
            j = j + 1;
        }
        push_lit_offset(&mut out);
        push_decimal(&mut out, 2 + 2 * (start as u64));
        push_lit_brace(&mut out);
        proof {
            assert(checked_through(offsets@, total as int, g as int) == start as int);
            assert(checked_through(offsets@, total as int, g as int + 1) == end as int);
            assert(utf8_ok(trimmed(names@[g as int]@)));
            assert(out@ == sensor_entry_json(
                preg,
                ids@[g as int],
                names@[g as int]@,
                rids@,
                rnames@,
                runits@,
                start as int,
                end as int,
            ));
            assert(end as int == spec_group_end(offsets@, total as int, g as int));
            assert(out@ == sensors_json(
                pre0,
                ids@,
                names@,
                offsets@,
                rids@,
                rnames@,
                runits@,
                total as int,
                g as int + 1,
            ));
        }
        g = g + 1;
    }
    push_lit_end(&mut out);
    Some(out)
}

} // verus!
