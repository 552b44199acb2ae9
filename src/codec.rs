//! Decoding an identification string into a breakdown of an item's rolls,
//! and building the string of an item's best roll.
use crate::grammar::{
    chars_of, code_char, data_char, lemma_code_char, lemma_split_extend, payload, payload_of, payloads,
    payloads_in, pieces_of, push_char, segment_bounds, segments, split_pieces, trim_end,
    trim_start, END_CHAR, SEPARATOR, START_CHAR,
};
use crate::identification::{Identification, StatusType};
use crate::item::{IdGroup, IdentificationOrder, Item, ItemList};
use crate::order::{
    contains_id, group_after, lemma_ordered_stats_entries, lemma_ordered_stats_increasing,
    next_group, ordered_stats,
    ordered_stats_spec, status_of, Stat,
};
use crate::powder::{decode_powders, powders_spec, Powders};
use crate::roll::{
    best_roll, best_roll_spec, has_range, lemma_best_roll_bounds, lemma_range_bounds, max_spec,
    min_spec, quality, quality_spec, trunc_div, value_from_roll, value_spec, RollQuality,
};
use vstd::prelude::*;
use vstd::string::*;

verus! {

/// Why an identification string could not be decoded.
#[derive(Debug, PartialEq, Eq, Structural, Clone, Copy)]
pub enum DecodeError {
    /// The name or the id segment is missing, or the segment that must end
    /// in the reroll count is empty.
    MalformedString,
    /// No item of the database has the string's name.
    ItemNotFound,
    /// The id segment holds fewer rolls than the item has variable stats.
    TruncatedIdSegment,
}

/// One decoded stat, as it is shown.
#[derive(Debug, PartialEq, Eq, Structural, Clone, Copy)]
pub struct StatLine {
    pub id: Identification,
    pub ordinal: i32,
    pub status_type: StatusType,
    pub value: i64,
    /// The roll's quality, for a stat that has a range.
    pub quality: Option<RollQuality>,
    /// Whether a blank line separates this stat from the one before.
    pub group_break: bool,
}

/// The roll integer that a roll character's integer carries; the low two
/// bits are unused.
pub open spec fn roll_of(p: i32) -> int {
    trunc_div(p as int, 4)
}

/// The lines of a list of stats in ordinal order, reading one roll for each
/// variable stat from `pays`; `None` when `pays` runs out.
pub open spec fn decode_lines(
    stats: Seq<Stat>,
    pays: Seq<i32>,
    prev: Option<IdGroup>,
    inverted: Seq<Identification>,
    groups: Seq<IdGroup>,
) -> Option<Seq<StatLine>>
    decreases stats.len(),
{
    if stats.len() == 0 {
        Some(Seq::empty())
    } else {
        let st = stats[0];
        let base = st.status.base_value as int;
        let brk = match prev {
            Some(g) => !g.contains_spec(st.ordinal),
            None => false,
        };
        let next = group_after(prev, st.ordinal, groups);
        if st.status.is_fixed {
            let line = StatLine {
                id: st.id,
                ordinal: st.ordinal,
                status_type: st.status.status_type,
                value: st.status.base_value as i64,
                quality: None,
                group_break: brk,
            };
            match decode_lines(stats.drop_first(), pays, next, inverted, groups) {
                Some(rest) => Some(seq![line] + rest),
                None => None,
            }
        } else if pays.len() == 0 {
            None
        } else {
            let v = value_spec(roll_of(pays[0]), base, false);
            let line = StatLine {
                id: st.id,
                ordinal: st.ordinal,
                status_type: st.status.status_type,
                value: v as i64,
                quality: if has_range(base, false) {
                    Some(quality_spec(v, base, false, inverted.contains(st.id)))
                } else {
                    None
                },
                group_break: brk,
            };
            match decode_lines(stats.drop_first(), pays.drop_first(), next, inverted, groups) {
                Some(rest) => Some(seq![line] + rest),
                None => None,
            }
        }
    }
}

/// The number of stats that read a roll character: the variable ones.
pub open spec fn variable_count(stats: Seq<Stat>) -> nat
    decreases stats.len(),
{
    if stats.len() == 0 {
        0
    } else {
        (if stats[0].status.is_fixed {
            0nat
        } else {
            1nat
        }) + variable_count(stats.drop_first())
    }
}

/// Decoding reads one roll character for each variable stat and none for a
/// fixed one: it succeeds exactly when there are enough roll characters, and
/// what follows them is never read. Each stat gets one line, in order; a
/// fixed stat shows its base value, the variable stat with `k` variable stats
/// before it takes its value from roll character `k`, and neither a fixed
/// stat nor one with a base value in `[-1, 1]` gets a quality.
pub proof fn lemma_decode_lines_shape(
    stats: Seq<Stat>,
    pays: Seq<i32>,
    prev: Option<IdGroup>,
    inverted: Seq<Identification>,
    groups: Seq<IdGroup>,
)
    ensures
        decode_lines(stats, pays, prev, inverted, groups) is Some <==> pays.len() >= variable_count(
            stats,
        ),
        pays.len() >= variable_count(stats) ==> decode_lines(stats, pays, prev, inverted, groups)
            == decode_lines(
            stats,
            pays.subrange(0, variable_count(stats) as int),
            prev,
            inverted,
            groups,
        ),
        decode_lines(stats, pays, prev, inverted, groups) matches Some(lines) ==> {
            &&& lines.len() == stats.len()
            &&& forall|i: int|
                0 <= i < stats.len() ==> {
                    &&& (#[trigger] lines[i]).id == stats[i].id
                    &&& lines[i].ordinal == stats[i].ordinal
                    &&& stats[i].status.is_fixed ==> lines[i].value == stats[i].status.base_value
                    &&& !stats[i].status.is_fixed ==> {
                        let k = variable_count(stats.subrange(0, i));
                        &&& k < pays.len()
                        &&& lines[i].value == value_spec(
                            roll_of(pays[k as int]),
                            stats[i].status.base_value as int,
                            false,
                        ) as i64
                    }
                    &&& (stats[i].status.is_fixed || -1 <= stats[i].status.base_value <= 1)
                        ==> lines[i].quality is None
                }
        },
    decreases stats.len(),
{
    if stats.len() > 0 {
        let st = stats[0];
        let next = group_after(prev, st.ordinal, groups);
        let rest = stats.drop_first();
        let n = variable_count(stats) as int;
        if st.status.is_fixed {
            lemma_decode_lines_shape(rest, pays, next, inverted, groups);
            if pays.len() >= n {
                lemma_decode_lines_shape(rest, pays.subrange(0, n), next, inverted, groups);
                assert(pays.subrange(0, n).subrange(0, n) =~= pays.subrange(0, n));
            }
        } else if pays.len() > 0 {
            lemma_decode_lines_shape(rest, pays.drop_first(), next, inverted, groups);
            if pays.len() >= n {
                let cut = pays.subrange(0, n);
                assert(cut.drop_first() =~= pays.drop_first().subrange(0, n - 1));
                assert(cut[0] == pays[0]);
            }
        }
        if decode_lines(stats, pays, prev, inverted, groups) is Some {
            let lines = decode_lines(stats, pays, prev, inverted, groups)->0;
            let pays_rest = if st.status.is_fixed {
                pays
            } else {
                pays.drop_first()
            };
            let tail = decode_lines(rest, pays_rest, next, inverted, groups)->0;
            let h: nat = if st.status.is_fixed {
                0
            } else {
                1
            };
            assert forall|i: int| 1 <= i < stats.len() implies #[trigger] lines[i] == tail[i - 1]
                && stats[i] == rest[i - 1] && variable_count(stats.subrange(0, i)) == h
                + variable_count(rest.subrange(0, i - 1)) by {
                assert(stats.subrange(0, i).drop_first() =~= rest.subrange(0, i - 1));
                assert(stats.subrange(0, i)[0] == st);
            }
            assert(variable_count(stats.subrange(0, 0)) == 0);
            assert forall|i: int| 1 <= i < stats.len() && !stats[i].status.is_fixed implies pays[
                variable_count(#[trigger] stats.subrange(0, i)) as int] == pays_rest[variable_count(
                rest.subrange(0, i - 1)) as int] by {
                assert(stats.subrange(0, i).drop_first() =~= rest.subrange(0, i - 1));
                assert(stats.subrange(0, i)[0] == st);
                assert(tail[i - 1].id == rest[i - 1].id);
                assert(variable_count(rest.subrange(0, i - 1)) < pays_rest.len());
            }
        }
    }
}

/// `lines` followed by what `rest` holds.
pub open spec fn prepend(lines: Seq<StatLine>, rest: Option<Seq<StatLine>>) -> Option<
    Seq<StatLine>,
> {
    match rest {
        Some(r) => Some(lines + r),
        None => None,
    }
}

/// The lines of a list of stats in ordinal order, reading one roll for each
/// variable stat from `pays`; `None` when `pays` runs out.
pub fn decode_stat_lines(
    stats: &Vec<Stat>,
    pays: &Vec<i32>,
    inverted: &Vec<Identification>,
    groups: &Vec<IdGroup>,
) -> (r: Option<Vec<StatLine>>)
    ensures
        r matches Some(v) ==> decode_lines(stats@, pays@, None, inverted@, groups@) == Some(v@),
        r is None ==> decode_lines(stats@, pays@, None, inverted@, groups@) is None,
{
    let n = stats.len();
    let m = pays.len();
    let mut lines: Vec<StatLine> = Vec::new();
    let mut prev: Option<IdGroup> = None;
    let mut i: usize = 0;
    let mut k: usize = 0;
    assert(stats@.subrange(0, n as int) =~= stats@);
    assert(pays@.subrange(0, m as int) =~= pays@);
    assert(lines@ + Seq::<StatLine>::empty() =~= lines@);
    while i < n
        invariant
            n == stats@.len(),
            m == pays@.len(),
            i <= n,
            k <= m,
            decode_lines(stats@, pays@, None, inverted@, groups@) == prepend(
                lines@,
                decode_lines(
                    stats@.subrange(i as int, n as int),
                    pays@.subrange(k as int, m as int),
                    prev,
                    inverted@,
                    groups@,
                ),
            ),
        decreases n - i,
    {
        let ghost rest_stats = stats@.subrange(i as int, n as int);
        let ghost rest_pays = pays@.subrange(k as int, m as int);
        assert(rest_stats.drop_first() =~= stats@.subrange(i + 1, n as int));
        assert(rest_stats[0] == stats@[i as int]);
        let st = stats[i];
        let base = st.status.base_value;
        let brk = match prev {
            Some(g) => !g.contains(st.ordinal),
            None => false,
        };
        let next = next_group(prev, st.ordinal, groups);
        if st.status.is_fixed {
            let line = StatLine {
                id: st.id,
                ordinal: st.ordinal,
                status_type: st.status.status_type,
                value: base as i64,
                quality: None,
                group_break: brk,
            };
            let ghost before = lines@;
            lines.push(line);
            assert(lines@ =~= before + seq![line]);
            assert forall|x: Seq<StatLine>| #[trigger] (before + (seq![line] + x)) == lines@ + x by {
                assert(before + (seq![line] + x) =~= lines@ + x);
            }
        } else {
            if k >= m {
                return None;
            }
            assert(rest_pays.drop_first() =~= pays@.subrange(k + 1, m as int));
            assert(rest_pays[0] == pays@[k as int]);
            let p = pays[k];
            k = k + 1;
            let roll: i32 = if p >= 0 {
                p / 4
            } else {
                -((-(p as i64) / 4) as i32)
            };
            let v = value_from_roll(roll, base, false);
            let q = if !(-1 <= base && base <= 1) {
                Some(quality(v, base, false, contains_id(inverted, st.id)))
            } else {
                None
            };
            let line = StatLine {
                id: st.id,
                ordinal: st.ordinal,
                status_type: st.status.status_type,
                value: v,
                quality: q,
                group_break: brk,
            };
            let ghost before = lines@;
            lines.push(line);
            assert(lines@ =~= before + seq![line]);
            assert forall|x: Seq<StatLine>| #[trigger] (before + (seq![line] + x)) == lines@ + x by {
                assert(before + (seq![line] + x) =~= lines@ + x);
            }
        }
        prev = next;
        i = i + 1;
    }
    assert(stats@.subrange(n as int, n as int) =~= Seq::<Stat>::empty());
    assert(lines@ + Seq::<StatLine>::empty() =~= lines@);
    Some(lines)
}

/// The index of the first item named `name`.
pub open spec fn find_item(items: Seq<Item>, name: Seq<char>) -> Option<int>
    decreases items.len(),
{
    if items.len() == 0 {
        None
    } else if items[0].display_name@ == name {
        Some(0)
    } else {
        match find_item(items.drop_first(), name) {
            Some(j) => Some(j + 1),
            None => None,
        }
    }
}

/// A found item has the name that was looked for, and no item before it.
pub proof fn lemma_find_item(items: Seq<Item>, name: Seq<char>)
    ensures
        find_item(items, name) matches Some(i) ==> {
            &&& 0 <= i < items.len()
            &&& items[i].display_name@ == name
            &&& forall|j: int| 0 <= j < i ==> #[trigger] items[j].display_name@ != name
        },
        find_item(items, name) is None ==> forall|j: int|
            0 <= j < items.len() ==> #[trigger] items[j].display_name@ != name,
    decreases items.len(),
{
    if items.len() > 0 {
        lemma_find_item(items.drop_first(), name);
        assert forall|j: int| 1 <= j < items.len() implies #[trigger] items[j].display_name@
            == items.drop_first()[j - 1].display_name@ by {}
    }
}

/// Whether the characters of `a` are `s[lo..hi]`.
fn same_chars(a: &str, s: &Vec<char>, lo: usize, hi: usize) -> (r: bool)
    requires
        lo <= hi <= s@.len(),
    ensures
        r == (a@ == s@.subrange(lo as int, hi as int)),
{
    let n = a.unicode_len();
    if n != hi - lo {
        return false;
    }
    let mut i: usize = 0;
    while i < n
        invariant
            n == a@.len(),
            n == hi - lo,
            lo <= hi <= s@.len(),
            i <= n,
            forall|j: int| 0 <= j < i ==> a@[j] == s@[lo + j],
        decreases n - i,
    {
        if a.get_char(i) != s[lo + i] {
            assert(a@[i as int] != s@.subrange(lo as int, hi as int)[i as int]);
            return false;
        }
        i = i + 1;
    }
    assert(a@ =~= s@.subrange(lo as int, hi as int));
    true
}

/// The index of the first item named `s[lo..hi]`.
fn find_item_in(items: &Vec<Item>, s: &Vec<char>, lo: usize, hi: usize) -> (r: Option<usize>)
    requires
        lo <= hi <= s@.len(),
    ensures
        r matches Some(i) ==> find_item(items@, s@.subrange(lo as int, hi as int)) == Some(
            i as int,
        ),
        r is None ==> find_item(items@, s@.subrange(lo as int, hi as int)) is None,
{
    let ghost name = s@.subrange(lo as int, hi as int);
    let n = items.len();
    let mut i: usize = 0;
    assert(items@.subrange(0, n as int) =~= items@);
    while i < n
        invariant
            n == items@.len(),
            i <= n,
            name == s@.subrange(lo as int, hi as int),
            lo <= hi <= s@.len(),
            find_item(items@, name) == match find_item(items@.subrange(i as int, n as int), name) {
                Some(j) => Some(j + i),
                None => None::<int>,
            },
        decreases n - i,
    {
        assert(items@.subrange(i as int, n as int).drop_first() =~= items@.subrange(
            i + 1,
            n as int,
        ));
        if same_chars(items[i].display_name.as_str(), s, lo, hi) {
            return Some(i);
        }
        i = i + 1;
    }
    None
}

impl ItemList {
    /// The index of the first item named `name`.
    pub fn lookup(&self, name: &str) -> (r: Option<usize>)
        ensures
            r matches Some(i) ==> find_item(self.items@, name@) == Some(i as int),
            r is None ==> find_item(self.items@, name@) is None,
    {
        let s = chars_of(name);
        assert(s@.subrange(0, s@.len() as int) =~= s@);
        find_item_in(&self.items, &s, 0, s.len())
    }
}

/// A decoded identification string, as the library states it.
pub struct DecodedItem {
    pub item_index: int,
    pub lines: Seq<StatLine>,
    pub powders: Seq<Powders>,
    pub powder_slots: u8,
    pub rerolls: i32,
}

/// A decoded identification string: the item it names, a line for each of
/// the item's stats in ordinal order, the powders in its slots, and how often
/// it was rerolled.
#[derive(Debug, Clone)]
pub struct Breakdown {
    pub item_index: usize,
    pub lines: Vec<StatLine>,
    pub powders: Vec<Powders>,
    pub powder_slots: u8,
    pub rerolls: i32,
}

impl View for Breakdown {
    type V = DecodedItem;

    open spec fn view(&self) -> DecodedItem {
        DecodedItem {
            item_index: self.item_index as int,
            lines: self.lines@,
            powders: self.powders@,
            powder_slots: self.powder_slots,
            rerolls: self.rerolls,
        }
    }
}

/// The name, id and optional powder segment of an identification string;
/// `None` when the id segment is missing, or the last of the two segments,
/// which ends in the reroll count, is empty.
pub open spec fn parse_spec(raw: Seq<char>) -> Option<(Seq<char>, Seq<char>, Option<Seq<char>>)> {
    let segs = segments(raw);
    if segs.len() < 2 || (segs.len() == 2 && segs[1].len() == 0) || (segs.len() >= 3
        && segs[2].len() == 0) {
        None
    } else {
        Some((segs[0], segs[1], if segs.len() >= 3 { Some(segs[2]) } else { None }))
    }
}

/// The roll characters' integers: the whole id segment, but for the reroll
/// count at its end when there is no powder segment.
pub open spec fn id_payloads(ids: Seq<char>, powders: Option<Seq<char>>) -> Seq<i32> {
    match powders {
        Some(_) => payloads(ids),
        None => payloads(ids.drop_last()),
    }
}

/// The reroll count: the last character of the last segment.
pub open spec fn reroll_spec(ids: Seq<char>, powders: Option<Seq<char>>) -> i32 {
    match powders {
        Some(p) => payload(p.last()),
        None => payload(ids.last()),
    }
}

/// The powders in an item's slots: none unless the item has slots and the
/// string a powder segment.
pub open spec fn item_powders(item: Item, powders: Option<Seq<char>>) -> Seq<Powders> {
    match powders {
        Some(p) => if item.powder_amount > 0 {
            powders_spec(payloads(p.drop_last()).map_values(|x: i32| x as int))
        } else {
            Seq::empty()
        },
        None => Seq::empty(),
    }
}

/// What an identification string decodes to against an item database.
pub open spec fn decode_spec(raw: Seq<char>, db: ItemList) -> Result<DecodedItem, DecodeError> {
    match parse_spec(raw) {
        None => Err(DecodeError::MalformedString),
        Some((name, ids, powders)) => match find_item(db.items@, name) {
            None => Err(DecodeError::ItemNotFound),
            Some(ix) => {
                let item = db.items@[ix];
                let order = db.identification_order;
                match decode_lines(
                    ordered_stats_spec(item, order),
                    id_payloads(ids, powders),
                    None,
                    order.inverted@,
                    order.groups@,
                ) {
                    None => Err(DecodeError::TruncatedIdSegment),
                    Some(lines) => Ok(
                        DecodedItem {
                            item_index: ix,
                            lines,
                            powders: item_powders(item, powders),
                            powder_slots: item.powder_amount,
                            rerolls: reroll_spec(ids, powders),
                        },
                    ),
                }
            },
        },
    }
}

/// Decodes an identification string against an item database.
pub fn decode(raw: &str, db: &ItemList) -> (r: Result<Breakdown, DecodeError>)
    requires
        db.wf(),
    ensures
        r matches Ok(b) ==> decode_spec(raw@, *db) == Ok::<DecodedItem, DecodeError>(b@),
        r matches Err(e) ==> decode_spec(raw@, *db) == Err::<DecodedItem, DecodeError>(e),
{
    let s = chars_of(raw);
    let bounds = segment_bounds(&s);
    let ghost segs = segments(raw@);
    assert(pieces_of(s@, bounds@) == segs);
    if bounds.len() < 2 {
        return Err(DecodeError::MalformedString);
    }
    let (na, nb) = bounds[0];
    let (ia, ib) = bounds[1];
    assert(segs[0] == s@.subrange(na as int, nb as int));
    assert(segs[1] == s@.subrange(ia as int, ib as int));
    let has_powders = bounds.len() >= 3;
    if !has_powders && ia >= ib {
        return Err(DecodeError::MalformedString);
    }
    let (pa, pb) = if has_powders {
        bounds[2]
    } else {
        (0, 0)
    };
    if has_powders {
        assert(segs[2] == s@.subrange(pa as int, pb as int));
        if pa >= pb {
            return Err(DecodeError::MalformedString);
        }
    }
    let ghost ids = segs[1];
    let ghost pw = if has_powders {
        Some(segs[2])
    } else {
        None
    };
    assert(parse_spec(raw@) == Some((segs[0], ids, pw)));
    let rerolls = if has_powders {
        payload_of(s[pb - 1])
    } else {
        payload_of(s[ib - 1])
    };
    let ix = match find_item_in(&db.items, &s, na, nb) {
        None => return Err(DecodeError::ItemNotFound),
        Some(ix) => ix,
    };
    proof {
        lemma_find_item(db.items@, segs[0]);
    }
    let item = &db.items[ix];
    let pays = if has_powders {
        payloads_in(&s, ia, ib)
    } else {
        assert(ids.drop_last() =~= s@.subrange(ia as int, ib - 1));
        payloads_in(&s, ia, ib - 1)
    };
    let powders = if has_powders && item.powder_amount > 0 {
        assert(segs[2].drop_last() =~= s@.subrange(pa as int, pb - 1));
        let slots = payloads_in(&s, pa, pb - 1);
        decode_powders(&slots)
    } else {
        Vec::new()
    };
    assert(powders@ == item_powders(*item, pw));
    let order = &db.identification_order;
    let stats = ordered_stats(item, order);
    match decode_stat_lines(&stats, &pays, &order.inverted, &order.groups) {
        None => Err(DecodeError::TruncatedIdSegment),
        Some(lines) => Ok(
            Breakdown {
                item_index: ix,
                lines,
                powders,
                powder_slots: item.powder_amount,
                rerolls,
            },
        ),
    }
}

/// The roll characters of the best roll of each variable stat, in order.
pub open spec fn best_chars(stats: Seq<Stat>, inverted: Seq<Identification>) -> Seq<char>
    decreases stats.len(),
{
    if stats.len() == 0 {
        Seq::empty()
    } else {
        let prev = best_chars(stats.drop_last(), inverted);
        let st = stats.last();
        if st.status.is_fixed {
            prev
        } else {
            prev.push(
                code_char(
                    4 * best_roll_spec(
                        st.status.base_value as int,
                        false,
                        inverted.contains(st.id),
                    ),
                ),
            )
        }
    }
}

/// The identification string of an item's best roll: its name, one roll
/// character per variable stat, a reroll count of zero, and no powders.
pub open spec fn best_string_spec(item: Item, order: IdentificationOrder) -> Seq<char> {
    seq![START_CHAR] + item.display_name@ + seq![SEPARATOR] + best_chars(
        ordered_stats_spec(item, order),
        order.inverted@,
    ) + seq![code_char(0), END_CHAR]
}

/// The identification string of an item's best roll.
pub fn encode_best(item: &Item, order: &IdentificationOrder) -> (r: String)
    requires
        item.wf(),
        order.wf(),
    ensures
        r@ == best_string_spec(*item, *order),
{
    let stats = ordered_stats(item, order);
    let mut out = String::new();
    push_char(&mut out, START_CHAR);
    out.append(item.display_name.as_str());
    push_char(&mut out, SEPARATOR);
    let ghost head = out@;
    let mut i: usize = 0;
    assert(stats@.subrange(0, 0) =~= Seq::<Stat>::empty());
    assert(out@ =~= head + best_chars(stats@.subrange(0, 0), order.inverted@));
    while i < stats.len()
        invariant
            i <= stats@.len(),
            out@ == head + best_chars(stats@.subrange(0, i as int), order.inverted@),
        decreases stats@.len() - i,
    {
        let st = stats[i];
        assert(stats@.subrange(0, i + 1).drop_last() =~= stats@.subrange(0, i as int));
        if !st.status.is_fixed {
            let best = best_roll(st.status.base_value, false, contains_id(&order.inverted, st.id));
            let c = data_char((best * 4) as i32);
            push_char(&mut out, c);
            assert(out@ =~= head + best_chars(stats@.subrange(0, i + 1), order.inverted@));
        }
        i = i + 1;
    }
    assert(stats@.subrange(0, stats@.len() as int) =~= stats@);
    let zero = data_char(0);
    push_char(&mut out, zero);
    push_char(&mut out, END_CHAR);
    assert(out@ =~= best_string_spec(*item, *order));
    out
}

/// The roll characters of a stat's best roll: one for a variable stat, none
/// for a fixed one.
pub open spec fn best_head(st: Stat, inverted: Seq<Identification>) -> Seq<char> {
    if st.status.is_fixed {
        Seq::empty()
    } else {
        seq![
            code_char(
                4 * best_roll_spec(st.status.base_value as int, false, inverted.contains(st.id)),
            ),
        ]
    }
}

/// The best-roll characters start with those of the first stat.
proof fn lemma_best_chars_front(stats: Seq<Stat>, inverted: Seq<Identification>)
    requires
        stats.len() > 0,
    ensures
        best_chars(stats, inverted) == best_head(stats[0], inverted) + best_chars(
            stats.drop_first(),
            inverted,
        ),
    decreases stats.len(),
{
    if stats.len() == 1 {
        assert(stats.drop_last() =~= Seq::<Stat>::empty());
        assert(stats.drop_first() =~= Seq::<Stat>::empty());
        assert(best_chars(stats.drop_last(), inverted) == Seq::<char>::empty());
        assert(best_chars(stats.drop_first(), inverted) == Seq::<char>::empty());
        assert(stats.last() == stats[0]);
        assert(best_chars(stats, inverted) =~= best_head(stats[0], inverted));
    } else {
        let init = stats.drop_last();
        lemma_best_chars_front(init, inverted);
        assert(init.drop_first() =~= stats.drop_first().drop_last());
        assert(stats.drop_first().last() == stats.last());
        assert(best_chars(stats, inverted) =~= best_head(stats[0], inverted) + best_chars(
            stats.drop_first(),
            inverted,
        ));
    }
}

/// Every best-roll character carries an integer between -120 and 1600.
proof fn lemma_best_chars_range(stats: Seq<Stat>, inverted: Seq<Identification>)
    ensures
        forall|i: int|
            0 <= i < best_chars(stats, inverted).len() ==> 0xF5000 - 120 <= (
            #[trigger] best_chars(stats, inverted)[i]) as int <= 0xF5000 + 1600,
    decreases stats.len(),
{
    if stats.len() > 0 {
        let prev = best_chars(stats.drop_last(), inverted);
        lemma_best_chars_range(stats.drop_last(), inverted);
        let st = stats.last();
        let best = best_roll_spec(st.status.base_value as int, false, inverted.contains(st.id));
        lemma_best_roll_bounds(st.status.base_value as int, false, inverted.contains(st.id));
        lemma_code_char(4 * best);
        let all = best_chars(stats, inverted);
        assert forall|i: int| 0 <= i < all.len() implies 0xF5000 - 120 <= (
        #[trigger] all[i]) as int <= 0xF5000 + 1600 by {
            if i < prev.len() {
                assert(all[i] == prev[i]);
            }
        }
    }
}

/// The stats whose best roll decodes to their best value: neither inverted
/// nor stored as a percentage of the base value.
pub open spec fn plain_stat(st: Stat, inverted: Seq<Identification>) -> bool {
    st.status.is_fixed || (!inverted.contains(st.id) && -100 <= st.status.base_value <= 100)
}

/// The best-roll characters of plain stats decode to each stat's best value.
proof fn lemma_decode_best(
    stats: Seq<Stat>,
    prev: Option<IdGroup>,
    inverted: Seq<Identification>,
    groups: Seq<IdGroup>,
)
    requires
        forall|i: int| 0 <= i < stats.len() ==> plain_stat(#[trigger] stats[i], inverted),
    ensures
        decode_lines(stats, payloads(best_chars(stats, inverted)), prev, inverted, groups) matches Some(
            lines,
        ) && lines.len() == stats.len() && forall|i: int|
            0 <= i < stats.len() ==> {
                &&& (#[trigger] lines[i]).id == stats[i].id
                &&& lines[i].value == max_spec(
                    stats[i].status.base_value as int,
                    stats[i].status.is_fixed,
                )
                &&& has_range(stats[i].status.base_value as int, stats[i].status.is_fixed)
                    ==> (lines[i].quality matches Some(q) && q.den > 0 && q.num == q.den)
            },
    decreases stats.len(),
{
    if stats.len() > 0 {
        let st = stats[0];
        let rest = stats.drop_first();
        let next = group_after(prev, st.ordinal, groups);
        assert forall|i: int| 0 <= i < rest.len() implies plain_stat(#[trigger] rest[i], inverted) by {
            assert(rest[i] == stats[i + 1]);
        }
        lemma_decode_best(rest, next, inverted, groups);
        lemma_best_chars_front(stats, inverted);
        let head = best_head(st, inverted);
        let tail = best_chars(rest, inverted);
        let pays = payloads(best_chars(stats, inverted));
        assert(plain_stat(stats[0], inverted));
        if !st.status.is_fixed {
            let base = st.status.base_value as int;
            lemma_range_bounds(base, false);
            if has_range(base, false) {
                crate::roll::lemma_range_positive(base, false);
            }
            let b = best_roll_spec(base, false, false);
            assert(b == max_spec(base, false) - min_spec(base, false));
            assert(0 <= b <= 400);
            assert(pays =~= seq![payload(code_char(4 * b))] + payloads(tail));
            assert(payload(code_char(4 * b)) == 4 * b);
            assert(pays.drop_first() =~= payloads(tail));
            assert(roll_of(pays[0]) == b);
        } else {
            assert(head + tail =~= tail);
        }
        let lines = decode_lines(stats, pays, prev, inverted, groups)->0;
        let tail_lines = decode_lines(rest, payloads(tail), next, inverted, groups)->0;
        assert forall|i: int| 1 <= i < stats.len() implies #[trigger] lines[i] == tail_lines[i
            - 1] && stats[i] == rest[i - 1] by {}
    }
}

/// Decoding the best-roll string of an item of a well-formed database gives
/// every stat of the item its best value, every stat with a range a quality
/// of 100%, and no rerolls, when no variable stat of the item is inverted or
/// has a base value beyond 100 either way. The name must be writable in the
/// string: no separator in it, and no start marker at its front.
pub proof fn lemma_best_round_trip(db: ItemList, ix: int)
    requires
        db.wf(),
        0 <= ix < db.items@.len(),
        !db.items@[ix].display_name@.contains(SEPARATOR),
        db.items@[ix].display_name@.len() == 0 || db.items@[ix].display_name@[0] != START_CHAR,
        forall|id: Identification|
            #[trigger] status_of(db.items@[ix].statuses@, id) matches Some(st) ==> {
                ||| st.is_fixed
                ||| !db.identification_order.inverted@.contains(id) && -100 <= st.base_value
                    <= 100
            },
    ensures
        decode_spec(best_string_spec(db.items@[ix], db.identification_order), db) matches Ok(d)
            && d.item_index == ix && d.rerolls == 0 && d.lines.len() == ordered_stats_spec(
            db.items@[ix],
            db.identification_order,
        ).len() && forall|i: int|
            0 <= i < d.lines.len() ==> {
                let st = ordered_stats_spec(db.items@[ix], db.identification_order)[i];
                &&& (#[trigger] d.lines[i]).id == st.id
                &&& d.lines[i].value == max_spec(st.status.base_value as int, st.status.is_fixed)
                &&& has_range(st.status.base_value as int, st.status.is_fixed)
                    ==> (d.lines[i].quality matches Some(q) && q.den > 0 && q.num == q.den)
            },
{
    let item = db.items@[ix];
    let order = db.identification_order;
    let stats = ordered_stats_spec(item, order);
    let inverted = order.inverted@;
    let name = item.display_name@;
    let b = best_chars(stats, inverted);
    let z = code_char(0);
    let raw = best_string_spec(item, order);
    let ids = b + seq![z];
    // The segments are the name and the roll characters with the reroll count.
    let r1 = name + seq![SEPARATOR] + ids + seq![END_CHAR];
    assert(raw.drop_first() =~= r1);
    assert(r1[0] != START_CHAR) by {
        if name.len() > 0 {
            assert(r1[0] == name[0]);
        } else {
            assert(r1[0] == SEPARATOR);
        }
    }
    assert(trim_start(r1) == r1);
    assert(raw[0] == START_CHAR);
    assert(trim_start(raw) == trim_start(raw.drop_first()));
    assert(trim_start(raw) == r1);
    let t = name + seq![SEPARATOR] + ids;
    lemma_code_char(0);
    assert(r1.drop_last() =~= t);
    assert(t.last() == z);
    assert(z != END_CHAR);
    assert(trim_end(t) == t);
    assert(r1.last() == END_CHAR);
    assert(trim_end(r1) == trim_end(r1.drop_last()));
    assert(trim_end(r1) == t);
    lemma_best_chars_range(stats, inverted);
    assert(!ids.contains(SEPARATOR)) by {
        if ids.contains(SEPARATOR) {
            let j = choose|j: int| 0 <= j < ids.len() && ids[j] == SEPARATOR;
            if j < b.len() {
                assert(b[j] == ids[j]);
            }
        }
    }
    lemma_split_extend(Seq::empty(), name);
    assert(Seq::<char>::empty() + name =~= name);
    assert(split_pieces(Seq::<char>::empty()) =~= seq![Seq::<char>::empty()]);
    assert(split_pieces(name) =~= seq![name]);
    let with_sep = name + seq![SEPARATOR];
    assert(with_sep.drop_last() =~= name);
    assert(split_pieces(with_sep) =~= seq![name, Seq::<char>::empty()]);
    lemma_split_extend(with_sep, ids);
    assert(with_sep + ids =~= t);
    assert(Seq::<char>::empty() + ids =~= ids);
    assert(split_pieces(t) =~= seq![name, ids]);
    assert(segments(raw) =~= seq![name, ids]);
    assert(parse_spec(raw) == Some((name, ids, None::<Seq<char>>)));
    // The database finds the item by its name, which no other item has.
    lemma_find_item(db.items@, name);
    if find_item(db.items@, name) != Some(ix) {
        assert(db.items@[ix].display_name@ == name);
    }
    // The rolls decode to the best values.
    assert(ids.drop_last() =~= b);
    lemma_ordered_stats_entries(item, order);
    assert forall|i: int| 0 <= i < stats.len() implies plain_stat(#[trigger] stats[i], inverted) by {
        assert(status_of(item.statuses@, stats[i].id) == Some(stats[i].status));
    }
    lemma_decode_best(stats, None, inverted, order.groups@);
    assert(payload(z) == 0);
}

/// Against a well-formed database a decoded item shows each ordinal at most
/// once: its lines come in strictly rising ordinal order.
pub proof fn lemma_decoded_lines_increasing(raw: Seq<char>, db: ItemList)
    requires
        db.wf(),
    ensures
        decode_spec(raw, db) matches Ok(d) ==> forall|i: int, j: int|
            0 <= i < j < d.lines.len() ==> #[trigger] d.lines[i].ordinal
                < #[trigger] d.lines[j].ordinal,
{
    if let Some((name, ids, powders)) = parse_spec(raw) {
        lemma_find_item(db.items@, name);
        if let Some(ix) = find_item(db.items@, name) {
            let item = db.items@[ix];
            let order = db.identification_order;
            let stats = ordered_stats_spec(item, order);
            lemma_ordered_stats_increasing(item, order);
            lemma_decode_lines_shape(
                stats,
                id_payloads(ids, powders),
                None,
                order.inverted@,
                order.groups@,
            );
            if let Some(lines) = decode_lines(
                stats,
                id_payloads(ids, powders),
                None,
                order.inverted@,
                order.groups@,
            ) {
                assert forall|i: int, j: int| 0 <= i < j < lines.len() implies #[trigger] lines[i].ordinal
                    < #[trigger] lines[j].ordinal by {
                    assert(lines[i].ordinal == stats[i].ordinal);
                    assert(lines[j].ordinal == stats[j].ordinal);
                }
            }
        }
    }
}

/// The best-roll string of the item that an identification string, or a
/// bare item name, names.
pub open spec fn best_string_for_spec(raw: Seq<char>, db: ItemList) -> Result<
    Seq<char>,
    DecodeError,
> {
    let segs = segments(raw);
    if segs.len() == 0 {
        Err(DecodeError::MalformedString)
    } else {
        match find_item(db.items@, segs[0]) {
            None => Err(DecodeError::ItemNotFound),
            Some(ix) => Ok(best_string_spec(db.items@[ix], db.identification_order)),
        }
    }
}

/// The best-roll string of the item that an identification string, or a
/// bare item name, names.
pub fn best_string_for(raw: &str, db: &ItemList) -> (r: Result<String, DecodeError>)
    requires
        db.wf(),
    ensures
        r matches Ok(s) ==> best_string_for_spec(raw@, *db) == Ok::<Seq<char>, DecodeError>(s@),
        r matches Err(e) ==> best_string_for_spec(raw@, *db) == Err::<Seq<char>, DecodeError>(e),
{
    let s = chars_of(raw);
    let bounds = segment_bounds(&s);
    if bounds.len() == 0 {
        return Err(DecodeError::MalformedString);
    }
    let (na, nb) = bounds[0];
    assert(segments(raw@)[0] == s@.subrange(na as int, nb as int));
    match find_item_in(&db.items, &s, na, nb) {
        None => Err(DecodeError::ItemNotFound),
        Some(ix) => {
            proof {
                lemma_find_item(db.items@, segments(raw@)[0]);
            }
            Ok(encode_best(&db.items[ix], &db.identification_order))
        },
    }
}

} // verus!
