//! Sensors and their discovery from a directory listing.
//!
//! The caller lists the sensor directory and hands over, for each member, its
//! name and what kind of file it is. Which members are sensors, under which
//! id, and in which order they are kept is decided here.

use vstd::prelude::*;
use vstd::string::*;
use crate::text::{has_prefix, parse_number, parsed_number, starts_with};

verus! {

/// What kind of file a directory member is.
#[derive(Clone, Copy, Debug, PartialEq, Eq)]
pub enum EntryKind {
    Directory,
    Symlink,
    RegularFile,
    /// Anything else that is known not to be a regular file.
    Other,
    /// The kind could not be found out.
    Undetermined,
}

/// One member of the sensor directory, as the listing gave it.
#[derive(Clone, Debug, PartialEq, Eq)]
pub struct DirEntry {
    /// The member's name, or `None` where it is not text.
    pub name: Option<String>,
    pub kind: EntryKind,
}

/// Why a directory member is no sensor.
#[derive(Clone, Copy, Debug, PartialEq, Eq)]
pub enum Rejection {
    UndeterminedKind,
    RegularFile,
    NameNotText,
    WrongPrefix,
    MalformedId,
}

/// One temperature source.
#[derive(Clone, Debug, PartialEq, Eq)]
pub struct Sensor {
    /// The ordinal by which sensors are ordered.
    pub id: u64,
    /// Where the value is fetched, relative to the sensor directory.
    pub locator: String,
    /// A name to show; where there is none, one is made from the id.
    pub label: Option<String>,
}

/// A sensor as a mathematical value.
pub struct SensorView {
    pub id: u64,
    pub locator: Seq<char>,
    pub label: Option<Seq<char>>,
}

impl View for Sensor {
    type V = SensorView;

    open spec fn view(&self) -> SensorView {
        SensorView {
            id: self.id,
            locator: self.locator@,
            label: match self.label {
                Some(l) => Some(l@),
                None => None,
            },
        }
    }
}

/// The views of a list of sensors, in the same order.
pub open spec fn sensor_views(s: Seq<Sensor>) -> Seq<SensorView> {
    s.map_values(|x: Sensor| x@)
}

/// What every sensor's name in the directory begins with.
pub open spec fn sensor_prefix() -> Seq<char> {
    "thermal_zone"@
}

/// What is added to a sensor's name to reach its value file.
pub open spec fn value_file_suffix() -> Seq<char> {
    "/temp"@
}

/// Whether a member of this kind can be a sensor: all but regular files and
/// those of unknown kind.
pub open spec fn kind_qualifies(kind: EntryKind) -> bool {
    kind != EntryKind::RegularFile && kind != EntryKind::Undetermined
}

/// The sensor that a directory member stands for, or why it stands for none.
pub open spec fn entry_outcome(e: DirEntry) -> Result<SensorView, Rejection> {
    if e.kind == EntryKind::Undetermined {
        Err(Rejection::UndeterminedKind)
    } else if e.kind == EntryKind::RegularFile {
        Err(Rejection::RegularFile)
    } else {
        match e.name {
            None => Err(Rejection::NameNotText),
            Some(name) => {
                if !has_prefix(name@, sensor_prefix()) {
                    Err(Rejection::WrongPrefix)
                } else {
                    match parsed_number(
                        name@.subrange(sensor_prefix().len() as int, name@.len() as int),
                    ) {
                        None => Err(Rejection::MalformedId),
                        Some(id) => Ok(
                            SensorView {
                                id,
                                locator: name@ + value_file_suffix(),
                                label: None,
                            },
                        ),
                    }
                }
            },
        }
    }
}

/// Whether the ids never decrease along the list.
pub open spec fn sorted_by_id(s: Seq<SensorView>) -> bool {
    forall|i: int, j: int| 0 <= i < j < s.len() ==> s[i].id <= s[j].id
}

/// Where a sensor with this id enters a list: behind the last one whose id
/// is not greater.
pub open spec fn upper_bound(s: Seq<SensorView>, id: u64) -> int
    decreases s.len(),
{
    if s.len() == 0 || s.last().id <= id {
        s.len() as int
    } else {
        upper_bound(s.drop_last(), id)
    }
}

/// The list with one more sensor, entered at its place.
pub open spec fn insert_by_id(s: Seq<SensorView>, x: SensorView) -> Seq<SensorView> {
    s.insert(upper_bound(s, x.id), x)
}

/// The sensors among the members of a listing, in the listing's order.
pub open spec fn qualifying(entries: Seq<DirEntry>) -> Seq<SensorView>
    decreases entries.len(),
{
    if entries.len() == 0 {
        Seq::empty()
    } else {
        let earlier = qualifying(entries.drop_last());
        match entry_outcome(entries.last()) {
            Ok(s) => earlier.push(s),
            Err(_) => earlier,
        }
    }
}

/// The sensors that a listing yields: those that qualify, by ascending id,
/// and in the listing's order where ids are equal.
pub open spec fn discovered(entries: Seq<DirEntry>) -> Seq<SensorView>
    decreases entries.len(),
{
    if entries.len() == 0 {
        Seq::empty()
    } else {
        let earlier = discovered(entries.drop_last());
        match entry_outcome(entries.last()) {
            Ok(s) => insert_by_id(earlier, s),
            Err(_) => earlier,
        }
    }
}

/// The place that `upper_bound` names splits the list: nothing from it on has
/// an id as small as `id`, and the sensor just before it has.
pub proof fn lemma_upper_bound(s: Seq<SensorView>, id: u64)
    ensures
        0 <= upper_bound(s, id) <= s.len(),
        forall|k: int| upper_bound(s, id) <= k < s.len() ==> (#[trigger] s[k]).id > id,
        upper_bound(s, id) > 0 ==> s[upper_bound(s, id) - 1].id <= id,
    decreases s.len(),
{
    if s.len() == 0 || s.last().id <= id {
    } else {
        lemma_upper_bound(s.drop_last(), id);
        let p = upper_bound(s, id);
        assert forall|k: int| p <= k < s.len() implies (#[trigger] s[k]).id > id by {
            if k < s.len() - 1 {
                assert(s.drop_last()[k] == s[k]);
            }
        }
    }
}

/// Entering a sensor into an ordered list leaves the list ordered.
pub proof fn lemma_insert_keeps_sorted(s: Seq<SensorView>, x: SensorView)
    requires
        sorted_by_id(s),
    ensures
        sorted_by_id(insert_by_id(s, x)),
{
    lemma_upper_bound(s, x.id);
    let p = upper_bound(s, x.id);
    let t = insert_by_id(s, x);
    assert forall|i: int, j: int| 0 <= i < j < t.len() implies t[i].id <= t[j].id by {
        if j < p {
            assert(s[i].id <= s[p - 1].id || i == p - 1);
        } else if j == p {
            assert(s[i].id <= s[p - 1].id || i == p - 1);
        } else if i < p {
            assert(s[i].id <= s[p - 1].id || i == p - 1);
            assert(s[j - 1].id > x.id);
        } else if i == p {
            assert(s[j - 1].id > x.id);
        } else {
            assert(s[i - 1].id <= s[j - 1].id);
        }
    }
}

/// Entering a sensor adds it, once, to what the list holds.
pub proof fn lemma_insert_adds_one(s: Seq<SensorView>, x: SensorView)
    ensures
        insert_by_id(s, x).to_multiset() == s.to_multiset().insert(x),
{
    broadcast use vstd::seq_lib::group_to_multiset_ensures;

    lemma_upper_bound(s, x.id);
    let p = upper_bound(s, x.id);
    let t = s.insert(p, x);
    assert(t[p] == x);
    assert(t.contains(x));
    assert(t.remove(p) =~= s);
    assert(t.to_multiset() =~= s.to_multiset().insert(x));
}

/// What discovery yields is ordered by id, whatever the listing's order.
pub proof fn lemma_discovered_sorted(entries: Seq<DirEntry>)
    ensures
        sorted_by_id(discovered(entries)),
    decreases entries.len(),
{
    if entries.len() > 0 {
        lemma_discovered_sorted(entries.drop_last());
        match entry_outcome(entries.last()) {
            Ok(s) => lemma_insert_keeps_sorted(discovered(entries.drop_last()), s),
            Err(_) => {},
        }
    }
}

/// Discovery yields the qualifying members, each as often as the listing
/// holds it, and nothing else.
pub proof fn lemma_discovered_holds_qualifying(entries: Seq<DirEntry>)
    ensures
        discovered(entries).to_multiset() == qualifying(entries).to_multiset(),
        discovered(entries).len() == qualifying(entries).len(),
    decreases entries.len(),
{
    broadcast use vstd::seq_lib::group_to_multiset_ensures;

    if entries.len() > 0 {
        lemma_discovered_holds_qualifying(entries.drop_last());
        match entry_outcome(entries.last()) {
            Ok(s) => {
                lemma_insert_adds_one(discovered(entries.drop_last()), s);
                lemma_upper_bound(discovered(entries.drop_last()), s.id);
            },
            Err(_) => {},
        }
    }
}

/// Decides whether a directory member is a sensor.
///
/// A member qualifies when its kind is known and is not a regular file, its
/// name is text that begins with the sensor prefix, and the rest of the name
/// is a decimal number, which becomes the id. The locator is the name
/// followed by the value file's name.
pub fn classify_entry(entry: &DirEntry) -> (r: Result<Sensor, Rejection>)
    ensures
        match r {
            Ok(s) => entry_outcome(*entry) == Ok::<SensorView, Rejection>(s@),
            Err(e) => entry_outcome(*entry) == Err::<SensorView, Rejection>(e),
        },
{
    match entry.kind {
        EntryKind::Undetermined => {
            return Err(Rejection::UndeterminedKind);
        },
        EntryKind::RegularFile => {
            return Err(Rejection::RegularFile);
        },
        _ => {},
    }
    match &entry.name {
        None => Err(Rejection::NameNotText),
        Some(name) => {
            let text: &str = name.as_str();
            let prefix: &str = "thermal_zone";
            if !starts_with(text, prefix) {
                return Err(Rejection::WrongPrefix);
            }
            let rest: &str = text.substring_char(prefix.unicode_len(), text.unicode_len());
            match parse_number(rest) {
                None => Err(Rejection::MalformedId),
                Some(id) => {
                    let locator: String = String::from_str(text).concat("/temp");
                    Ok(Sensor { id, locator, label: None })
                },
            }
        },
    }
}

/// Enters a sensor into a list at its place by id: behind every sensor whose
/// id is not greater, before the others.
pub fn insert_sensor(list: &mut Vec<Sensor>, sensor: Sensor)
    ensures
        sensor_views(final(list)@) == insert_by_id(sensor_views(old(list)@), sensor@),
        sorted_by_id(sensor_views(old(list)@)) ==> sorted_by_id(sensor_views(final(list)@)),
{
    let ghost before = sensor_views(list@);
    let mut p: usize = list.len();
    proof {
        assert(before.subrange(0, p as int) =~= before);
    }
    while p > 0 && list[p - 1].id > sensor.id
        invariant
            p <= list.len(),
            *list == *old(list),
            before == sensor_views(list@),
            upper_bound(before, sensor.id) == upper_bound(before.subrange(0, p as int), sensor.id),
        decreases p,
    {
        proof {
            let cur = before.subrange(0, p as int);
            assert(cur.last() == list@[p - 1]@);
            assert(cur.drop_last() =~= before.subrange(0, p - 1));
        }
        p -= 1;
    }
    proof {
        let cur = before.subrange(0, p as int);
        if p > 0 {
            assert(cur.last() == list@[p - 1]@);
        }
        assert(upper_bound(cur, sensor.id) == p);
        if sorted_by_id(before) {
            lemma_insert_keeps_sorted(before, sensor@);
        }
    }
    list.insert(p, sensor);
    proof {
        assert(sensor_views(list@) =~= before.insert(p as int, sensor@));
    }
}

/// Why discovery as a whole failed.
#[derive(Clone, Copy, Debug, PartialEq, Eq)]
pub enum DiscoveryError {
    /// The sensor directory is missing or cannot be read.
    RootUnavailable,
}

/// Finds the sensors where the directory may have been unreadable.
///
/// `None` stands for a sensor directory that is missing or could not be
/// listed: discovery then fails, and does not go on without sensors. A
/// directory that could be listed never fails, even where it holds no sensor.
pub fn discover_root(listing: Option<&Vec<DirEntry>>) -> (r: Result<Vec<Sensor>, DiscoveryError>)
    ensures
        match listing {
            None => r == Err::<Vec<Sensor>, DiscoveryError>(DiscoveryError::RootUnavailable),
            Some(entries) => r.is_ok() && sensor_views(r.unwrap()@) == discovered(entries@)
                && sorted_by_id(sensor_views(r.unwrap()@)),
        },
{
    match listing {
        None => Err(DiscoveryError::RootUnavailable),
        Some(entries) => Ok(discover(entries)),
    }
}

/// Finds the sensors in a directory listing.
///
/// The result holds one sensor for each member that qualifies, ordered by
/// ascending id; members that do not qualify are passed over.
pub fn discover(entries: &Vec<DirEntry>) -> (r: Vec<Sensor>)
    ensures
        sensor_views(r@) == discovered(entries@),
        sorted_by_id(sensor_views(r@)),
        sensor_views(r@).to_multiset() == qualifying(entries@).to_multiset(),
        r@.len() == qualifying(entries@).len(),
{
    let mut out: Vec<Sensor> = Vec::new();
    let mut i: usize = 0;
    proof {
        assert(sensor_views(out@) =~= discovered(entries@.subrange(0, 0)));
    }
    while i < entries.len()
        invariant
            i <= entries.len(),
            sensor_views(out@) == discovered(entries@.subrange(0, i as int)),
        decreases entries.len() - i,
    {
        proof {
            assert(entries@.subrange(0, i + 1).drop_last() =~= entries@.subrange(0, i as int));
            assert(entries@.subrange(0, i + 1).last() == entries@[i as int]);
        }
        match classify_entry(&entries[i]) {
            Ok(sensor) => {
                insert_sensor(&mut out, sensor);
            },
            Err(_) => {},
        }
        i += 1;
    }
    proof {
        assert(entries@.subrange(0, i as int) =~= entries@);
        lemma_discovered_sorted(entries@);
        lemma_discovered_holds_qualifying(entries@);
    }
    out
}

/// Whether no two sensors of the list have the same id.
pub open spec fn unique_ids(s: Seq<SensorView>) -> bool {
    forall|i: int, j: int| 0 <= i < j < s.len() ==> s[i].id != s[j].id
}

/// Two lists ordered by id, each without a repeated id, that hold the same
/// sensors are the same list.
pub proof fn lemma_sorted_lists_agree(a: Seq<SensorView>, b: Seq<SensorView>)
    requires
        sorted_by_id(a),
        sorted_by_id(b),
        unique_ids(a),
        unique_ids(b),
        forall|x: SensorView| a.contains(x) <==> b.contains(x),
    ensures
        a == b,
    decreases a.len(),
{
    if a.len() == 0 {
        if b.len() > 0 {
            assert(b.contains(b[0]));
        }
        assert(a =~= b);
    } else {
        let la = a.len() - 1;
        assert(a.contains(a[la]));
        assert(b.contains(a[la]));
        let k = choose|k: int| 0 <= k < b.len() && b[k] == a[la];
        let lb = b.len() - 1;
        assert(b.contains(b[lb]));
        let m = choose|m: int| 0 <= m < a.len() && a[m] == b[lb];
        assert(a[m].id <= a[la].id);
        assert(b[k].id <= b[lb].id);
        assert(k == lb);
        let a0 = a.drop_last();
        let b0 = b.drop_last();
        assert forall|x: SensorView| a0.contains(x) <==> b0.contains(x) by {
            if a0.contains(x) {
                let i = choose|i: int| 0 <= i < a0.len() && a0[i] == x;
                assert(a[i] == x);
                assert(a.contains(x));
                let j = choose|j: int| 0 <= j < b.len() && b[j] == x;
                assert(j != lb);
                assert(b0[j] == x);
            }
            if b0.contains(x) {
                let i = choose|i: int| 0 <= i < b0.len() && b0[i] == x;
                assert(b[i] == x);
                assert(b.contains(x));
                let j = choose|j: int| 0 <= j < a.len() && a[j] == x;
                assert(j != la);
                assert(a0[j] == x);
            }
        }
        lemma_sorted_lists_agree(a0, b0);
        assert(a =~= a0.push(a[la]));
        assert(b =~= b0.push(b[lb]));
    }
}

/// Discovery yields exactly the qualifying members.
pub proof fn lemma_discovered_members(entries: Seq<DirEntry>)
    ensures
        forall|x: SensorView| discovered(entries).contains(x) <==> qualifying(entries).contains(x),
{
    broadcast use vstd::seq_lib::group_to_multiset_ensures;

    lemma_discovered_holds_qualifying(entries);
    assert forall|x: SensorView|
        discovered(entries).contains(x) <==> qualifying(entries).contains(x) by {
        assert(discovered(entries).to_multiset().count(x) == qualifying(entries).to_multiset().count(
            x,
        ));
    }
}

/// Where no two qualifying members have the same id, no two discovered
/// sensors have.
pub proof fn lemma_discovered_unique(entries: Seq<DirEntry>)
    requires
        unique_ids(qualifying(entries)),
    ensures
        unique_ids(discovered(entries)),
    decreases entries.len(),
{
    if entries.len() > 0 {
        let q0 = qualifying(entries.drop_last());
        let d0 = discovered(entries.drop_last());
        match entry_outcome(entries.last()) {
            Ok(s) => {
                let q = qualifying(entries);
                assert(q == q0.push(s));
                assert forall|i: int, j: int| 0 <= i < j < q0.len() implies q0[i].id
                    != q0[j].id by {
                    assert(q[i] == q0[i] && q[j] == q0[j]);
                }
                lemma_discovered_unique(entries.drop_last());
                lemma_discovered_members(entries.drop_last());
                lemma_upper_bound(d0, s.id);
                let p = upper_bound(d0, s.id);
                assert forall|k: int| 0 <= k < d0.len() implies (#[trigger] d0[k]).id != s.id by {
                    assert(d0.contains(d0[k]));
                    assert(q0.contains(d0[k]));
                    let m = choose|m: int| 0 <= m < q0.len() && q0[m] == d0[k];
                    assert(q[m] == q0[m]);
                    assert(q[q0.len() as int] == s);
                }
                let d = d0.insert(p, s);
                assert forall|i: int, j: int| 0 <= i < j < d.len() implies d[i].id != d[j].id by {
                    let oi = if i < p { i } else { i - 1 };
                    let oj = if j < p { j } else { j - 1 };
                    if i == p {
                        assert(d[j] == d0[oj]);
                    } else if j == p {
                        assert(d[i] == d0[oi]);
                    } else {
                        assert(d[i] == d0[oi]);
                        assert(d[j] == d0[oj]);
                    }
                }
            },
            Err(_) => {
                lemma_discovered_unique(entries.drop_last());
            },
        }
    }
}

/// Discovery does not depend on the order of the listing: two listings with
/// the same qualifying members, no two of them with the same id, yield the
/// same sensors in the same order.
pub proof fn lemma_discovery_ignores_listing_order(first: Seq<DirEntry>, second: Seq<DirEntry>)
    requires
        unique_ids(qualifying(first)),
        unique_ids(qualifying(second)),
        forall|x: SensorView| qualifying(first).contains(x) <==> qualifying(second).contains(x),
    ensures
        discovered(first) == discovered(second),
{
    lemma_discovered_sorted(first);
    lemma_discovered_sorted(second);
    lemma_discovered_unique(first);
    lemma_discovered_unique(second);
    lemma_discovered_members(first);
    lemma_discovered_members(second);
    lemma_sorted_lists_agree(discovered(first), discovered(second));
}

/// The sensor that stands for the component of a provider at `index`.
pub open spec fn provider_sensor(index: int, label: Seq<char>) -> SensorView {
    SensorView { id: index as u64, locator: Seq::empty(), label: Some(label) }
}

/// Makes the sensors of a provider that hands out labelled components: one
/// for each label, in the provider's order, with its place as id.
pub fn provider_sensors(labels: &Vec<String>) -> (r: Vec<Sensor>)
    ensures
        r@.len() == labels@.len(),
        forall|i: int|
            0 <= i < labels@.len() ==> (#[trigger] r@[i])@ == provider_sensor(i, labels@[i]@),
        sorted_by_id(sensor_views(r@)),
        unique_ids(sensor_views(r@)),
{
    let mut out: Vec<Sensor> = Vec::new();
    let mut i: usize = 0;
    while i < labels.len()
        invariant
            i <= labels.len(),
            out@.len() == i,
            forall|k: int| 0 <= k < i ==> (#[trigger] out@[k])@ == provider_sensor(k, labels@[k]@),
        decreases labels.len() - i,
    {
        let label: String = labels[i].clone();
        let locator: String = String::from_str("");
        proof {
            reveal_strlit("");
            assert(locator@ =~= Seq::<char>::empty());
        }
        out.push(Sensor { id: i as u64, locator, label: Some(label) });
        i += 1;
    }
    out
}

/// Whether two listings name the same members, of the same kinds, in the
/// same order.
pub open spec fn same_listing(first: Seq<DirEntry>, second: Seq<DirEntry>) -> bool {
    &&& first.len() == second.len()
    &&& forall|i: int|
        0 <= i < first.len() ==> {
            &&& (#[trigger] first[i]).kind == second[i].kind
            &&& first[i].name is Some <==> second[i].name is Some
            &&& first[i].name is Some ==> first[i].name->0@ == second[i].name->0@
        }
}

/// Discovery on a directory that has not changed yields the same sensors in
/// the same order.
pub proof fn lemma_discovery_repeats(first: Seq<DirEntry>, second: Seq<DirEntry>)
    requires
        same_listing(first, second),
    ensures
        discovered(first) == discovered(second),
        qualifying(first) == qualifying(second),
    decreases first.len(),
{
    if first.len() > 0 {
        let a = first.drop_last();
        let b = second.drop_last();
        assert forall|i: int| 0 <= i < a.len() implies {
            &&& (#[trigger] a[i]).kind == b[i].kind
            &&& a[i].name is Some <==> b[i].name is Some
            &&& a[i].name is Some ==> a[i].name->0@ == b[i].name->0@
        } by {
            assert(a[i] == first[i] && b[i] == second[i]);
        }
        lemma_discovery_repeats(a, b);
        assert(first.last() == first[first.len() - 1]);
        assert(entry_outcome(first.last()) == entry_outcome(second.last()));
    }
}

} // verus!
