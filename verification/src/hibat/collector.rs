//! Which power supplies are batteries, and what a battery's sysfs files say.
use vstd::prelude::*;
use vstd::string::*;
use crate::hibat::db::{status_of_text, BatteryRecord, BatteryStatus};
use crate::text::{
    chars_of, has_prefix, join_path, parse_i32, parse_i32_spec, parse_i64, parse_i64_spec, path_join,
    sort_texts, starts_with, string_of, texts_sorted, trim, trim_str, views,
};

verus! {

/// A directory under the power supply class: its name, and the content of its
/// `type` file when it could be read.
#[derive(Debug)]
pub struct SupplyEntry {
    pub name: String,
    pub kind: Option<String>,
}

/// An entry is a battery when its type, trimmed, is `Battery` and it is not a
/// human-interface device (named `hid-...`).
pub open spec fn is_battery(e: SupplyEntry) -> bool {
    e.kind matches Some(k) && trim(k@) == "Battery"@ && !has_prefix(e.name@, "hid-"@)
}

/// The names of the batteries among `es`, in the order of `es`.
pub open spec fn battery_entry_names(es: Seq<SupplyEntry>) -> Seq<Seq<char>>
    decreases es.len(),
{
    if es.len() == 0 {
        Seq::empty()
    } else {
        battery_entry_names(es.drop_last()) + if is_battery(es.last()) {
            seq![es.last().name@]
        } else {
            Seq::empty()
        }
    }
}

fn is_battery_exec(e: &SupplyEntry) -> (r: bool)
    ensures
        r == is_battery(*e),
{
    proof {
        reveal_strlit("Battery");
        reveal_strlit("hid-");
    }
    match &e.kind {
        Some(k) => {
            let t = string_of(&trim_str(k.as_str()));
            t == String::from_str("Battery") && !starts_with(&chars_of(e.name.as_str()), &chars_of("hid-"))
        },
        None => false,
    }
}

/// The names of the batteries among the entries, sorted.
pub fn battery_names(entries: &[SupplyEntry]) -> (r: Vec<String>)
    ensures
        texts_sorted(views(r@)),
        views(r@).to_multiset() == battery_entry_names(entries@).to_multiset(),
{
    let mut names: Vec<String> = Vec::new();
    let mut i: usize = 0;
    while i < entries.len()
        invariant
            i <= entries@.len(),
            views(names@) == battery_entry_names(entries@.take(i as int)),
        decreases entries@.len() - i,
    {
        let ghost before = views(names@);
        if is_battery_exec(&entries[i]) {
            names.push(entries[i].name.clone());
        }
        proof {
            assert(entries@.take(i + 1).drop_last() =~= entries@.take(i as int));
            assert(entries@.take(i + 1).last() == entries@[i as int]);
            if is_battery(entries@[i as int]) {
                assert(views(names@) =~= before + seq![entries@[i as int].name@]);
            } else {
                assert(views(names@) =~= before + Seq::<Seq<char>>::empty());
            }
        }
        i = i + 1;
    }
    proof {
        assert(entries@.take(entries@.len() as int) =~= entries@);
    }
    sort_texts(names)
}

/// The sysfs files of one battery as they were read (`None` for a file that could
/// not be read), and when.
#[derive(Debug)]
pub struct BatteryFiles {
    pub name: String,
    pub timestamp: i64,
    pub capacity: Option<String>,
    pub status: Option<String>,
    pub voltage_now: Option<String>,
    pub current_now: Option<String>,
    pub power_now: Option<String>,
    pub energy_now: Option<String>,
    pub energy_full: Option<String>,
    pub energy_full_design: Option<String>,
    pub cycle_count: Option<String>,
    pub temp: Option<String>,
}

/// The number a file holds, trimmed; none when it was not read or is no `i64`.
pub open spec fn file_i64(f: Option<String>) -> Option<i64> {
    match f {
        Some(t) => parse_i64_spec(trim(t@)),
        None => None,
    }
}

/// The number a file holds, trimmed; none when it was not read or is no `i32`.
pub open spec fn file_i32(f: Option<String>) -> Option<i32> {
    match f {
        Some(t) => parse_i32_spec(trim(t@)),
        None => None,
    }
}

fn read_i64(f: &Option<String>) -> (r: Option<i64>)
    ensures
        r == file_i64(*f),
{
    match f {
        Some(t) => parse_i64(&trim_str(t.as_str())),
        None => None,
    }
}

fn read_i32(f: &Option<String>) -> (r: Option<i32>)
    ensures
        r == file_i32(*f),
{
    match f {
        Some(t) => parse_i32(&trim_str(t.as_str())),
        None => None,
    }
}

/// The record of one battery read from its files: each number as the file holds
/// it, the status as its trimmed text names it (see `status_of_text`).
pub open spec fn record_of(f: BatteryFiles, r: BatteryRecord) -> bool {
    &&& r.id is None
    &&& r.timestamp == f.timestamp
    &&& r.battery@ == f.name@
    &&& r.capacity == file_i32(f.capacity)
    &&& r.status == status_of_text(match f.status {
        Some(t) => Some(trim(t@)),
        None => None,
    })
    &&& r.voltage_now == file_i64(f.voltage_now)
    &&& r.current_now == file_i64(f.current_now)
    &&& r.power_now == file_i64(f.power_now)
    &&& r.energy_now == file_i64(f.energy_now)
    &&& r.energy_full == file_i64(f.energy_full)
    &&& r.energy_full_design == file_i64(f.energy_full_design)
    &&& r.cycle_count == file_i32(f.cycle_count)
    &&& r.temperature == file_i32(f.temp)
}

/// The record of one battery (see `record_of`).
pub fn collect_one(files: &BatteryFiles) -> (r: BatteryRecord)
    ensures
        record_of(*files, r),
{
    let status = match &files.status {
        Some(t) => {
            let trimmed = string_of(&trim_str(t.as_str()));
            BatteryStatus::from_str_opt(Some(trimmed.as_str()))
        },
        None => BatteryStatus::from_str_opt(None),
    };
    BatteryRecord {
        id: None,
        timestamp: files.timestamp,
        battery: files.name.clone(),
        capacity: read_i32(&files.capacity),
        status,
        voltage_now: read_i64(&files.voltage_now),
        current_now: read_i64(&files.current_now),
        power_now: read_i64(&files.power_now),
        energy_now: read_i64(&files.energy_now),
        energy_full: read_i64(&files.energy_full),
        energy_full_design: read_i64(&files.energy_full_design),
        cycle_count: read_i32(&files.cycle_count),
        temperature: read_i32(&files.temp),
    }
}

/// The records of all the batteries read, in order.
pub fn collect_all(batteries: &[BatteryFiles]) -> (r: Vec<BatteryRecord>)
    ensures
        r@.len() == batteries@.len(),
        forall|i: int| 0 <= i < r@.len() ==> record_of(batteries@[i], #[trigger] r@[i]),
{
    let mut out: Vec<BatteryRecord> = Vec::new();
    let mut i: usize = 0;
    while i < batteries.len()
        invariant
            i <= batteries@.len(),
            out@.len() == i,
            forall|k: int| 0 <= k < i ==> record_of(batteries@[k], #[trigger] out@[k]),
        decreases batteries@.len() - i,
    {
        out.push(collect_one(&batteries[i]));
        i = i + 1;
    }
    out
}

/// The path of the file `file` of battery `battery` under `base`.
pub fn battery_file_path(base: &str, battery: &str, file: &str) -> (r: String)
    ensures
        r@ == path_join(path_join(base@, battery@), file@),
{
    let dir = join_path(base, battery);
    join_path(dir.as_str(), file)
}

/// Whether some supply among `es` named `x` is a battery.
pub open spec fn battery_named(es: Seq<SupplyEntry>, x: Seq<char>) -> bool {
    exists|k: int| 0 <= k < es.len() && is_battery(#[trigger] es[k]) && es[k].name@ == x
}

proof fn lemma_battery_names_from_entries(es: Seq<SupplyEntry>, x: Seq<char>)
    requires
        battery_entry_names(es).contains(x),
    ensures
        exists|k: int| 0 <= k < es.len() && is_battery(#[trigger] es[k]) && es[k].name@ == x,
    decreases es.len(),
{
    let init = battery_entry_names(es.drop_last());
    let tail: Seq<Seq<char>> = if is_battery(es.last()) { seq![es.last().name@] } else { Seq::empty() };
    assert(battery_entry_names(es) == init + tail);
    let q = choose|q: int| 0 <= q < battery_entry_names(es).len() && battery_entry_names(es)[q] == x;
    if q < init.len() {
        assert(init[q] == x);
        lemma_battery_names_from_entries(es.drop_last(), x);
        let k = choose|k: int| 0 <= k < es.drop_last().len() && is_battery(#[trigger] es.drop_last()[k]) && es.drop_last()[k].name@ == x;
        assert(es[k] == es.drop_last()[k]);
    } else {
        assert(tail[q - init.len()] == x);
        assert(is_battery(es[es.len() - 1]) && es[es.len() - 1].name@ == x);
    }
}

/// A collection reads, for each name `battery_names` gives (sorted, the
/// batteries among the power supplies), that battery's files, and turns them
/// into records (`collect_all`). The records then come one per battery, in
/// name order, each named for its battery, with no id, and with the status its
/// status file names; and every name is that of a supply whose type is
/// `Battery` and whose name does not start with `hid-`.
pub proof fn law_collection_follows_battery_names(
    entries: Seq<SupplyEntry>,
    names: Seq<Seq<char>>,
    files: Seq<BatteryFiles>,
    records: Seq<BatteryRecord>,
)
    requires
        texts_sorted(names),
        names.to_multiset() == battery_entry_names(entries).to_multiset(),
        files.len() == names.len(),
        forall|i: int| 0 <= i < files.len() ==> (#[trigger] files[i]).name@ == names[i],
        records.len() == files.len(),
        forall|i: int| 0 <= i < records.len() ==> record_of(files[i], #[trigger] records[i]),
    ensures
        records.len() == names.len(),
        forall|i: int| 0 <= i < records.len() ==> {
            &&& (#[trigger] records[i]).battery@ == names[i]
            &&& records[i].id is None
            &&& records[i].status == status_of_text(match files[i].status {
                Some(t) => Some(trim(t@)),
                None => None,
            })
        },
        forall|i: int| 0 <= i < names.len() ==> battery_named(entries, #[trigger] names[i]),
{
    assert forall|i: int| 0 <= i < records.len() implies (#[trigger] records[i]).battery@ == names[i] by {
        assert(record_of(files[i], records[i]));
        assert(files[i].name@ == names[i]);
    }
    assert forall|i: int| 0 <= i < names.len() implies battery_named(entries, #[trigger] names[i]) by {
        vstd::seq_lib::to_multiset_contains(names, names[i]);
        vstd::seq_lib::to_multiset_contains(battery_entry_names(entries), names[i]);
        assert(names.contains(names[i]));
        lemma_battery_names_from_entries(entries, names[i]);
    }
}

} // verus!
