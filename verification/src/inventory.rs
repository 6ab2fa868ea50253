//! Container inventory records and their grouping by workload category.
//!
//! The runtime's listing is handed in as plain values (`RawContainer`); it
//! is flattened into one immutable `ContainerRecord` per (container, name)
//! pair, and the records are grouped by the category their name classifies
//! to. A record whose name matches no marker lands in no group and is
//! therefore never considered for removal.

use vstd::prelude::*;

use crate::category::{spec_classify, clasificar_contenedor, Category};

verus! {

/// An immutable snapshot of one container at listing time.
pub struct ContainerRecord {
    /// The runtime's opaque identifier.
    pub id: String,
    /// The name under which the container was listed.
    pub name: String,
    /// Creation timestamp, seconds since the epoch, as the runtime reports it.
    pub created: i64,
}

/// The mathematical model of a `ContainerRecord`.
pub ghost struct RecordModel {
    pub id: Seq<char>,
    pub name: Seq<char>,
    pub created: int,
}

impl View for ContainerRecord {
    type V = RecordModel;

    open spec fn view(&self) -> RecordModel {
        RecordModel { id: self.id@, name: self.name@, created: self.created as int }
    }
}

impl DeepView for ContainerRecord {
    type V = RecordModel;

    open spec fn deep_view(&self) -> RecordModel {
        self.view()
    }
}

impl ContainerRecord {
    /// An owned copy that models identically.
    pub fn duplicate(&self) -> (r: ContainerRecord)
        ensures
            r@ == self@,
    {
        ContainerRecord { id: self.id.clone(), name: self.name.clone(), created: self.created }
    }
}

/// The runtime endpoint could not be reached: the reconciliation pass is
/// skipped for this tick and retried at the next interval.
#[derive(Clone, Copy, Debug, PartialEq, Eq, Structural)]
pub struct RuntimeUnavailable;

/// One entry of the runtime's listing, reduced to plain values: the runtime
/// may omit any of the fields, and a container may carry several names.
pub struct RawContainer {
    pub id: Option<String>,
    pub names: Vec<String>,
    pub created: Option<i64>,
}

/// The mathematical model of a `RawContainer`.
pub ghost struct RawModel {
    pub id: Option<Seq<char>>,
    pub names: Seq<Seq<char>>,
    pub created: Option<int>,
}

impl View for RawContainer {
    type V = RawModel;

    open spec fn view(&self) -> RawModel {
        RawModel {
            id: match self.id {
                Some(s) => Some(s@),
                None => None,
            },
            names: self.names.deep_view(),
            created: match self.created {
                Some(c) => Some(c as int),
                None => None,
            },
        }
    }
}

impl DeepView for RawContainer {
    type V = RawModel;

    open spec fn deep_view(&self) -> RawModel {
        self.view()
    }
}

/// The records one listing entry contributes: one per name, provided the
/// runtime reported both an id and a creation time.
pub open spec fn records_of_entry(e: RawModel) -> Seq<RecordModel> {
    match (e.id, e.created) {
        (Some(id), Some(created)) => e.names.map_values(
            |n: Seq<char>| RecordModel { id: id, name: n, created: created },
        ),
        _ => Seq::<RecordModel>::empty(),
    }
}

/// The records of a whole listing, in listing order.
pub open spec fn records_of(entries: Seq<RawModel>) -> Seq<RecordModel>
    decreases entries.len(),
{
    if entries.len() == 0 {
        Seq::<RecordModel>::empty()
    } else {
        records_of(entries.drop_last()) + records_of_entry(entries.last())
    }
}

/// Flatten a runtime listing into container records, skipping entries for
/// which the runtime omitted the id or the creation time.
pub fn records_from_listing(entries: &Vec<RawContainer>) -> (r: Vec<ContainerRecord>)
    ensures
        r.deep_view() == records_of(entries.deep_view()),
{
    let mut r: Vec<ContainerRecord> = Vec::new();
    proof {
        assert(entries.deep_view().take(0) =~= Seq::<RawModel>::empty());
        assert(r.deep_view() =~= records_of(entries.deep_view().take(0)));
    }
    let mut i: usize = 0;
    while i < entries.len()
        invariant
            i <= entries.len(),
            entries.deep_view().len() == entries.len(),
            r.deep_view() == records_of(entries.deep_view().take(i as int)),
        decreases entries.len() - i,
    {
        let entry = &entries[i];
        let ghost e = entries.deep_view()[i as int];
        if let (Some(id), Some(created)) = (&entry.id, entry.created) {
            let mut j: usize = 0;
            while j < entry.names.len()
                invariant
                    j <= entry.names.len(),
                    e == entry@,
                    e.id matches Some(eid) && eid == entry.id->Some_0@,
                    e.created is Some,
                    id == &entry.id->Some_0,
                    created == entry.created->Some_0,
                    entry.names.deep_view().len() == entry.names.len(),
                    r.deep_view() == records_of(entries.deep_view().take(i as int))
                        + records_of_entry(e).take(j as int),
                decreases entry.names.len() - j,
            {
                let rec = ContainerRecord {
                    id: id.clone(),
                    name: entry.names[j].clone(),
                    created,
                };
                let ghost old_r = r.deep_view();
                r.push(rec);
                proof {
                    assert(records_of_entry(e)[j as int] == rec@);
                    assert(records_of_entry(e).take(j + 1) =~= records_of_entry(e).take(
                        j as int,
                    ).push(rec@));
                    assert(r.deep_view() =~= old_r.push(rec@));
                }
                j += 1;
            }
            proof {
                assert(records_of_entry(e).take(entry.names.len() as int) =~= records_of_entry(
                    e,
                ));
            }
        } else {
            proof {
                assert(records_of_entry(e) =~= Seq::<RecordModel>::empty());
                assert(r.deep_view() =~= records_of(entries.deep_view().take(i as int))
                    + records_of_entry(e));
            }
        }
        proof {
            assert(entries.deep_view().take(i + 1).drop_last() =~= entries.deep_view().take(
                i as int,
            ));
            assert(entries.deep_view().take(i + 1).last() == e);
            assert(r.deep_view() =~= records_of(entries.deep_view().take(i + 1)));
        }
        i += 1;
    }
    proof {
        assert(entries.deep_view().take(entries.len() as int) =~= entries.deep_view());
    }
    r
}

/// The records of `records` that classify to category `c`, in order.
pub open spec fn group_of(records: Seq<RecordModel>, c: Category) -> Seq<RecordModel> {
    records.filter(|r: RecordModel| spec_classify(r.name) == Some(c))
}

/// The inventory grouped by workload category. Rebuilt every tick, never
/// mutated in place across ticks.
pub struct CategoryGroups {
    pub ram: Vec<ContainerRecord>,
    pub cpu: Vec<ContainerRecord>,
    pub io: Vec<ContainerRecord>,
    pub disk: Vec<ContainerRecord>,
}

impl CategoryGroups {
    /// The group a category maps to, as a model.
    pub open spec fn spec_group(&self, c: Category) -> Seq<RecordModel> {
        match c {
            Category::Ram => self.ram.deep_view(),
            Category::Cpu => self.cpu.deep_view(),
            Category::Io => self.io.deep_view(),
            Category::Disk => self.disk.deep_view(),
        }
    }

    /// The groups are exactly the classified records of `records`.
    pub open spec fn groups_records(&self, records: Seq<RecordModel>) -> bool {
        forall|c: Category| #[trigger] self.spec_group(c) == group_of(records, c)
    }
}

/// Group records by the category their name classifies to; a record whose
/// name matches no marker is excluded entirely.
pub fn group_records(records: &Vec<ContainerRecord>) -> (g: CategoryGroups)
    ensures
        g.groups_records(records.deep_view()),
{
    let mut ram: Vec<ContainerRecord> = Vec::new();
    let mut cpu: Vec<ContainerRecord> = Vec::new();
    let mut io: Vec<ContainerRecord> = Vec::new();
    let mut disk: Vec<ContainerRecord> = Vec::new();
    let ghost rs = records.deep_view();
    proof {
        assert(rs.take(0) =~= Seq::<RecordModel>::empty());
        reveal(Seq::filter);
        assert(ram.deep_view() =~= group_of(rs.take(0), Category::Ram));
        assert(cpu.deep_view() =~= group_of(rs.take(0), Category::Cpu));
        assert(io.deep_view() =~= group_of(rs.take(0), Category::Io));
        assert(disk.deep_view() =~= group_of(rs.take(0), Category::Disk));
    }
    let mut i: usize = 0;
    while i < records.len()
        invariant
            i <= records.len(),
            rs == records.deep_view(),
            rs.len() == records.len(),
            ram.deep_view() == group_of(rs.take(i as int), Category::Ram),
            cpu.deep_view() == group_of(rs.take(i as int), Category::Cpu),
            io.deep_view() == group_of(rs.take(i as int), Category::Io),
            disk.deep_view() == group_of(rs.take(i as int), Category::Disk),
        decreases records.len() - i,
    {
        let rec = &records[i];
        let copy = rec.duplicate();
        let ghost old_ram = ram.deep_view();
        let ghost old_cpu = cpu.deep_view();
        let ghost old_io = io.deep_view();
        let ghost old_disk = disk.deep_view();
        match clasificar_contenedor(rec.name.as_str()) {
            Some(Category::Ram) => ram.push(copy),
            Some(Category::Cpu) => cpu.push(copy),
            Some(Category::Io) => io.push(copy),
            Some(Category::Disk) => disk.push(copy),
            None => (),
        }
        proof {
            reveal(Seq::filter);
            assert(rs.take(i + 1).drop_last() =~= rs.take(i as int));
            assert(rs.take(i + 1).last() == rs[i as int]);
            assert(rec@ == rs[i as int]);
            assert(ram.deep_view() =~= group_of(rs.take(i + 1), Category::Ram));
            assert(cpu.deep_view() =~= group_of(rs.take(i + 1), Category::Cpu));
            assert(io.deep_view() =~= group_of(rs.take(i + 1), Category::Io));
            assert(disk.deep_view() =~= group_of(rs.take(i + 1), Category::Disk));
        }
        i += 1;
    }
    proof {
        assert(rs.take(records.len() as int) =~= rs);
    }
    CategoryGroups { ram, cpu, io, disk }
}

/// A record found in a category's group classifies to that category; in
/// particular a record whose name matches no marker stands in no group.
pub proof fn lemma_group_membership(records: Seq<RecordModel>, c: Category, i: int)
    requires
        0 <= i < group_of(records, c).len(),
    ensures
        spec_classify(group_of(records, c)[i].name) == Some(c),
{
    records.lemma_filter_pred(|r: RecordModel| spec_classify(r.name) == Some(c), i);
}

} // verus!
