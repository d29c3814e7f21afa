//! Partition requests: their textual form and the sizes they resolve to.

use crate::registry::{linux_filesystem, linux_filesystem_guid, lookup_guid, registered_guid};
use crate::text::{
    chars_of, free_of, join, lemma_join_then_split, lemma_split_then_join, split, split_bounds,
};
use crate::util::{Error, Offset};
use vstd::prelude::*;
use vstd::string::StrSliceExecFns;

verus! {

/// A partition type, held as its type GUID in the registry's spelling.
#[derive(Clone, Debug, PartialEq, Eq)]
pub struct PartitionType {
    pub guid: String,
}

impl View for PartitionType {
    type V = Seq<char>;

    open spec fn view(&self) -> Seq<char> {
        self.guid@
    }
}

/// Whether the registry knows a type with the GUID `guid`.
pub open spec fn is_registered(guid: Seq<char>) -> bool {
    exists|name: Seq<char>| #[trigger] registered_guid(name) == Some(guid)
}

/// A request for one partition.
#[derive(Clone, Debug, PartialEq, Eq)]
pub struct Partition {
    pub name: Option<String>,
    pub start: Offset,
    pub end: Offset,
    pub partition_type: PartitionType,
}

/// A partition request as plain values.
pub struct PartitionView {
    pub name: Option<Seq<char>>,
    pub start: Offset,
    pub end: Offset,
    pub type_guid: Seq<char>,
}

impl View for Partition {
    type V = PartitionView;

    open spec fn view(&self) -> PartitionView {
        PartitionView {
            name: match self.name {
                Some(name) => Some(name@),
                None => None,
            },
            start: self.start,
            end: self.end,
            type_guid: self.partition_type@,
        }
    }
}

impl PartitionView {
    /// Both offsets are well formed and the registry knows the type.
    pub open spec fn wf(self) -> bool {
        &&& self.start.wf()
        &&& self.end.wf()
        &&& is_registered(self.type_guid)
    }

    /// The size in bytes on a device that holds `capacity` bytes: the
    /// distance from start to end. A position that does not fit in 64 bits
    /// is a `RangeError`; an end that does not lie behind the start is an
    /// `InvalidPartitionSpecification`.
    pub open spec fn size(self, capacity: nat) -> Result<u64, Error> {
        let start = self.start.resolve(capacity);
        let end = self.end.resolve(capacity);
        if start > u64::MAX || end > u64::MAX {
            Err(Error::RangeError)
        } else if end <= start {
            Err(Error::InvalidPartitionSpecification)
        } else {
            Ok((end - start) as u64)
        }
    }
}

impl Partition {
    /// The size in bytes on a device that holds `relative_to` bytes.
    pub fn size(&self, relative_to: u64) -> (r: Result<u64, Error>)
        ensures
            r == self@.size(relative_to as nat),
    {
        let start = match self.start.to_bytes(relative_to) {
            Ok(start) => start,
            Err(_) => {
                return Err(Error::RangeError);
            },
        };
        let end = match self.end.to_bytes(relative_to) {
            Ok(end) => end,
            Err(_) => {
                return Err(Error::RangeError);
            },
        };
        if end <= start {
            Err(Error::InvalidPartitionSpecification)
        } else {
            Ok(end - start)
        }
    }
}

/// The type that a type name stands for, or `InvalidPartitionType` where
/// the registry does not know the name.
pub open spec fn parse_partition_type_spec(name: Seq<char>) -> Result<Seq<char>, Error> {
    match registered_guid(name) {
        Some(guid) => Ok(guid),
        None => Err(Error::InvalidPartitionType),
    }
}

/// Looks a type name up in the registry.
pub fn parse_partition_type(partition_type: &str) -> (r: Result<PartitionType, Error>)
    ensures
        match r {
            Ok(found) => parse_partition_type_spec(partition_type@) == Ok::<Seq<char>, Error>(
                found@,
            ),
            Err(e) => parse_partition_type_spec(partition_type@) == Err::<Seq<char>, Error>(e),
        },
{
    match lookup_guid(partition_type) {
        Some(guid) => Ok(PartitionType { guid }),
        None => Err(Error::InvalidPartitionType),
    }
}

/// The fields of a partition request, `named` saying whether the first of
/// them is a name. A named request has the fields name, start, end and,
/// optionally, type; an unnamed one the same without the name. Any other
/// number of fields, or a start or end that is no offset, is an
/// `InvalidPartitionSpecification`. A type that the registry does not know
/// is an `InvalidPartitionType`. Without a type field the type is Linux
/// filesystem data.
pub open spec fn read_fields(fields: Seq<Seq<char>>, named: bool) -> Result<PartitionView, Error> {
    let first: int = if named {
        1
    } else {
        0
    };
    if fields.len() != first + 2 && fields.len() != first + 3 {
        Err(Error::InvalidPartitionSpecification)
    } else {
        match (Offset::parse_spec(fields[first]), Offset::parse_spec(fields[first + 1])) {
            (Ok(start), Ok(end)) => {
                let type_guid = if fields.len() == first + 3 {
                    parse_partition_type_spec(fields[first + 2])
                } else {
                    Ok(linux_filesystem_guid())
                };
                match type_guid {
                    Ok(type_guid) => Ok(
                        PartitionView {
                            name: if named {
                                Some(fields[0])
                            } else {
                                None
                            },
                            start,
                            end,
                            type_guid,
                        },
                    ),
                    Err(e) => Err(e),
                }
            },
            _ => Err(Error::InvalidPartitionSpecification),
        }
    }
}

/// What a partition request means. Its fields stand between colons. The
/// first field is a name exactly if it is no offset.
pub open spec fn parse_partition_spec(s: Seq<char>) -> Result<PartitionView, Error> {
    let fields = split(s, ':');
    read_fields(fields, Offset::parse_spec(fields[0]) is Err)
}

/// Reads a partition request.
pub fn parse_partition(partition: &str) -> (r: Result<Partition, Error>)
    ensures
        match r {
            Ok(p) => parse_partition_spec(partition@) == Ok::<PartitionView, Error>(p@) && p@.wf(),
            Err(e) => parse_partition_spec(partition@) == Err::<PartitionView, Error>(e),
        },
{
    let v = chars_of(partition);
    let bounds = split_bounds(&v, ':');
    let ghost fields = split(partition@, ':');
    let count = bounds.len();
    assert(partition@.subrange(bounds@[0].0 as int, bounds@[0].1 as int) == fields[0]);
    let head = partition.substring_char(bounds[0].0, bounds[0].1);
    let (name, start, first): (Option<String>, Option<Offset>, usize) = match Offset::parse(head) {
        Ok(start) => (None, Some(start), 0),
        Err(_) => (Some(head.to_owned()), None, 1),
    };
    if count < first + 2 || count > first + 3 {
        return Err(Error::InvalidPartitionSpecification);
    }
    let start = match start {
        Some(start) => start,
        None => {
            let field = partition.substring_char(bounds[1].0, bounds[1].1);
            match Offset::parse(field) {
                Ok(start) => start,
                Err(_) => {
                    return Err(Error::InvalidPartitionSpecification);
                },
            }
        },
    };
    let field = partition.substring_char(bounds[first + 1].0, bounds[first + 1].1);
    let end = match Offset::parse(field) {
        Ok(end) => end,
        Err(_) => {
            return Err(Error::InvalidPartitionSpecification);
        },
    };
    let partition_type = if count == first + 3 {
        let field = partition.substring_char(bounds[first + 2].0, bounds[first + 2].1);
        match parse_partition_type(field) {
            Ok(found) => found,
            Err(e) => {
                return Err(e);
            },
        }
    } else {
        PartitionType { guid: linux_filesystem() }
    };
    Ok(Partition { name, start, end, partition_type })
}

/// The views of the requests in `partitions`, in order.
pub open spec fn partition_views(partitions: Seq<Partition>) -> Seq<PartitionView> {
    Seq::new(partitions.len(), |i: int| partitions[i]@)
}

/// What a list of partition requests means: the meaning of each, in
/// order, or the error of the first that has none.
pub open spec fn parse_partitions_spec(specs: Seq<Seq<char>>) -> Result<Seq<PartitionView>, Error>
    decreases specs.len(),
{
    if specs.len() == 0 {
        Ok(Seq::empty())
    } else {
        match parse_partitions_spec(specs.drop_last()) {
            Err(e) => Err(e),
            Ok(before) => match parse_partition_spec(specs.last()) {
                Err(e) => Err(e),
                Ok(p) => Ok(before.push(p)),
            },
        }
    }
}

/// The texts of `specs`, in order.
pub open spec fn texts(specs: Seq<String>) -> Seq<Seq<char>> {
    Seq::new(specs.len(), |i: int| specs[i]@)
}

/// Reads a list of partition requests, stopping at the first that fails.
pub fn parse_partitions(specs: &Vec<String>) -> (r: Result<Vec<Partition>, Error>)
    ensures
        match r {
            Ok(partitions) => parse_partitions_spec(texts(specs@)) == Ok::<
                Seq<PartitionView>,
                Error,
            >(partition_views(partitions@)) && forall|i: int|
                0 <= i < partitions@.len() ==> (#[trigger] partitions@[i])@.wf(),
            Err(e) => parse_partitions_spec(texts(specs@)) == Err::<Seq<PartitionView>, Error>(e),
        },
{
    let mut partitions: Vec<Partition> = Vec::new();
    let mut i: usize = 0;
    assert(texts(specs@).subrange(0, 0) == Seq::<Seq<char>>::empty());
    assert(partition_views(partitions@) == Seq::<PartitionView>::empty());
    while i < specs.len()
        invariant
            i <= specs.len(),
            parse_partitions_spec(texts(specs@).subrange(0, i as int)) == Ok::<
                Seq<PartitionView>,
                Error,
            >(partition_views(partitions@)),
            forall|k: int| 0 <= k < partitions@.len() ==> (#[trigger] partitions@[k])@.wf(),
        decreases specs.len() - i,
    {
        let ghost upto = texts(specs@).subrange(0, i + 1);
        assert(upto.drop_last() == texts(specs@).subrange(0, i as int));
        assert(upto.last() == specs@[i as int]@);
        let ghost before = partition_views(partitions@);
        match parse_partition(specs[i].as_str()) {
            Ok(p) => {
                partitions.push(p);
                assert(partition_views(partitions@) == before.push(p@));
            },
            Err(e) => {
                proof {
                    lemma_parse_partitions_prefix(texts(specs@), i + 1);
                }
                return Err(e);
            },
        }
        i += 1;
    }
    assert(texts(specs@).subrange(0, i as int) == texts(specs@));
    Ok(partitions)
}

/// A list of requests has no meaning where one of its beginnings has none,
/// and then fails as that beginning does.
pub proof fn lemma_parse_partitions_prefix(specs: Seq<Seq<char>>, n: int)
    requires
        0 <= n <= specs.len(),
        parse_partitions_spec(specs.subrange(0, n)) is Err,
    ensures
        parse_partitions_spec(specs) == parse_partitions_spec(specs.subrange(0, n)),
    decreases specs.len(),
{
    if n == specs.len() {
        assert(specs.subrange(0, n) == specs);
    } else {
        assert(specs.drop_last().subrange(0, n) == specs.subrange(0, n));
        lemma_parse_partitions_prefix(specs.drop_last(), n);
    }
}

/// One partition of a layout: what the table is asked to hold.
#[derive(Clone, Debug, PartialEq, Eq)]
pub struct PlannedPartition {
    pub name: String,
    pub size_bytes: u64,
    pub partition_type: PartitionType,
}

/// A planned partition as plain values.
pub struct PlannedPartitionView {
    pub name: Seq<char>,
    pub size_bytes: u64,
    pub type_guid: Seq<char>,
}

impl View for PlannedPartition {
    type V = PlannedPartitionView;

    open spec fn view(&self) -> PlannedPartitionView {
        PlannedPartitionView {
            name: self.name@,
            size_bytes: self.size_bytes,
            type_guid: self.partition_type@,
        }
    }
}

impl PartitionView {
    /// The planned partition for this request on a device that holds
    /// `capacity` bytes. It has the size of the request, its type, and its
    /// name, which is empty where the request has none.
    pub open spec fn planned(self, capacity: nat) -> Result<PlannedPartitionView, Error> {
        match self.size(capacity) {
            Ok(size_bytes) => Ok(
                PlannedPartitionView {
                    name: match self.name {
                        Some(name) => name,
                        None => Seq::empty(),
                    },
                    size_bytes,
                    type_guid: self.type_guid,
                },
            ),
            Err(e) => Err(e),
        }
    }
}

/// The views of the planned partitions in `plan`, in order.
pub open spec fn planned_views(plan: Seq<PlannedPartition>) -> Seq<PlannedPartitionView> {
    Seq::new(plan.len(), |i: int| plan[i]@)
}

/// The layout for a list of requests on a device that holds `capacity`
/// bytes: the planned partition of each, in order, or the error of the
/// first that has none. No request is held against another.
pub open spec fn plan_spec(partitions: Seq<PartitionView>, capacity: nat) -> Result<
    Seq<PlannedPartitionView>,
    Error,
>
    decreases partitions.len(),
{
    if partitions.len() == 0 {
        Ok(Seq::empty())
    } else {
        match plan_spec(partitions.drop_last(), capacity) {
            Err(e) => Err(e),
            Ok(before) => match partitions.last().planned(capacity) {
                Err(e) => Err(e),
                Ok(p) => Ok(before.push(p)),
            },
        }
    }
}

/// A layout fails where the layout of one of its beginnings fails, and
/// then as that one does.
pub proof fn lemma_plan_prefix(partitions: Seq<PartitionView>, capacity: nat, n: int)
    requires
        0 <= n <= partitions.len(),
        plan_spec(partitions.subrange(0, n), capacity) is Err,
    ensures
        plan_spec(partitions, capacity) == plan_spec(partitions.subrange(0, n), capacity),
    decreases partitions.len(),
{
    if n == partitions.len() {
        assert(partitions.subrange(0, n) == partitions);
    } else {
        assert(partitions.drop_last().subrange(0, n) == partitions.subrange(0, n));
        lemma_plan_prefix(partitions.drop_last(), capacity, n);
    }
}

/// Plans the partitions for a device that holds `capacity` bytes.
pub fn plan(partitions: &Vec<Partition>, capacity: u64) -> (r: Result<
    Vec<PlannedPartition>,
    Error,
>)
    ensures
        match r {
            Ok(plan) => plan_spec(partition_views(partitions@), capacity as nat) == Ok::<
                Seq<PlannedPartitionView>,
                Error,
            >(planned_views(plan@)),
            Err(e) => plan_spec(partition_views(partitions@), capacity as nat) == Err::<
                Seq<PlannedPartitionView>,
                Error,
            >(e),
        },
{
    let mut plan: Vec<PlannedPartition> = Vec::new();
    let mut i: usize = 0;
    let ghost views = partition_views(partitions@);
    assert(views.subrange(0, 0) == Seq::<PartitionView>::empty());
    assert(planned_views(plan@) == Seq::<PlannedPartitionView>::empty());
    while i < partitions.len()
        invariant
            i <= partitions.len(),
            views == partition_views(partitions@),
            plan_spec(views.subrange(0, i as int), capacity as nat) == Ok::<
                Seq<PlannedPartitionView>,
                Error,
            >(planned_views(plan@)),
        decreases partitions.len() - i,
    {
        assert(views.subrange(0, i + 1).drop_last() == views.subrange(0, i as int));
        assert(views.subrange(0, i + 1).last() == partitions@[i as int]@);
        let ghost before = planned_views(plan@);
        let partition = &partitions[i];
        match partition.size(capacity) {
            Ok(size_bytes) => {
                let name = match &partition.name {
                    Some(name) => name.clone(),
                    None => String::new(),
                };
                let partition_type = PartitionType { guid: partition.partition_type.guid.clone() };
                let planned = PlannedPartition { name, size_bytes, partition_type };
                plan.push(planned);
                assert(planned_views(plan@) == before.push(planned@));
            },
            Err(e) => {
                proof {
                    lemma_plan_prefix(views, capacity as nat, i + 1);
                }
                return Err(e);
            },
        }
        i += 1;
    }
    assert(views.subrange(0, i as int) == views);
    Ok(plan)
}

/// A request whose first field is an offset has no name: that field is
/// its start, the next its end, and a third its type. A request whose first
/// field is no offset has that field as its name, however it looks.
pub proof fn lemma_first_field_decides(s: Seq<char>)
    requires
        parse_partition_spec(s) is Ok,
    ensures
        ({
            let fields = split(s, ':');
            let p = parse_partition_spec(s)->Ok_0;
            if Offset::parse_spec(fields[0]) is Ok {
                &&& p.name is None
                &&& 2 <= fields.len() <= 3
                &&& Offset::parse_spec(fields[0]) == Ok::<Offset, Error>(p.start)
                &&& Offset::parse_spec(fields[1]) == Ok::<Offset, Error>(p.end)
                &&& fields.len() == 3 ==> registered_guid(fields[2]) == Some(p.type_guid)
                &&& fields.len() == 2 ==> p.type_guid == linux_filesystem_guid()
            } else {
                &&& p.name == Some(fields[0])
                &&& 3 <= fields.len() <= 4
                &&& Offset::parse_spec(fields[1]) == Ok::<Offset, Error>(p.start)
                &&& Offset::parse_spec(fields[2]) == Ok::<Offset, Error>(p.end)
                &&& fields.len() == 4 ==> registered_guid(fields[3]) == Some(p.type_guid)
                &&& fields.len() == 3 ==> p.type_guid == linux_filesystem_guid()
            }
        }),
{
}

/// A request is its fields with colons between them and nothing else: the
/// fields joined again are the request, and no field, a name neither,
/// holds a colon.
pub proof fn lemma_request_is_its_fields(s: Seq<char>)
    ensures
        join(split(s, ':'), ':') == s,
        free_of(split(s, ':'), ':'),
        parse_partition_spec(s) matches Ok(p) ==> (p.name matches Some(name) ==> !name.contains(
            ':',
        )),
{
    lemma_split_then_join(s, ':');
    let fields = split(s, ':');
    if parse_partition_spec(s) is Ok && parse_partition_spec(s)->Ok_0.name is Some {
        let name = parse_partition_spec(s)->Ok_0.name->0;
        assert(name == fields[0]);
        assert forall|i: int| 0 <= i < name.len() implies name[i] != ':' by {
            assert(fields[0][i] != ':');
        }
    }
}

/// Fields without colons, written with colons between them, are read as
/// those fields: the first decides whether there is a name, and the others
/// are start, end and type.
pub proof fn lemma_written_fields_read_back(fields: Seq<Seq<char>>)
    requires
        fields.len() > 0,
        free_of(fields, ':'),
    ensures
        parse_partition_spec(join(fields, ':')) == read_fields(
            fields,
            Offset::parse_spec(fields[0]) is Err,
        ),
{
    lemma_join_then_split(fields, ':');
}

/// Three fields of which the first is an offset are start, end and type: a
/// third field that the registry does not know is an
/// `InvalidPartitionType`, also where it could be read as an offset.
pub proof fn lemma_third_field_is_type(s: Seq<char>)
    requires
        split(s, ':').len() == 3,
        Offset::parse_spec(split(s, ':')[0]) is Ok,
        Offset::parse_spec(split(s, ':')[1]) is Ok,
        registered_guid(split(s, ':')[2]) is None,
    ensures
        parse_partition_spec(s) == Err::<PartitionView, Error>(Error::InvalidPartitionType),
{
}

/// A layout holds one planned partition for each request, in the order of
/// the requests, each resolved on its own; and there is a layout exactly if
/// every request resolves.
pub proof fn lemma_plan_each(partitions: Seq<PartitionView>, capacity: nat)
    ensures
        plan_spec(partitions, capacity) matches Ok(plan) ==> plan.len() == partitions.len()
            && forall|i: int|
            0 <= i < partitions.len() ==> (#[trigger] partitions[i]).planned(capacity) == Ok::<
                PlannedPartitionView,
                Error,
            >(plan[i]),
        plan_spec(partitions, capacity) is Ok <==> forall|i: int|
            0 <= i < partitions.len() ==> (#[trigger] partitions[i]).planned(capacity) is Ok,
    decreases partitions.len(),
{
    if partitions.len() > 0 {
        lemma_plan_each(partitions.drop_last(), capacity);
        let before = partitions.drop_last();
        assert(forall|i: int| 0 <= i < before.len() ==> before[i] == partitions[i]);
        if plan_spec(partitions, capacity) is Ok {
            assert forall|i: int| 0 <= i < partitions.len() implies (
            #[trigger] partitions[i]).planned(capacity) is Ok by {
                if i < before.len() {
                    assert(before[i].planned(capacity) is Ok);
                }
            }
        }
        if forall|i: int|
            0 <= i < partitions.len() ==> (#[trigger] partitions[i]).planned(capacity) is Ok {
            assert forall|i: int| 0 <= i < before.len() implies (#[trigger] before[i]).planned(
                capacity,
            ) is Ok by {
                assert(partitions[i].planned(capacity) is Ok);
            }
            assert(partitions[partitions.len() - 1].planned(capacity) is Ok);
        }
    }
}

/// Every partition of a layout has an end behind its start: its size is
/// the distance between the two, and above zero.
pub proof fn lemma_planned_sizes(partitions: Seq<PartitionView>, capacity: nat, i: int)
    requires
        plan_spec(partitions, capacity) is Ok,
        0 <= i < partitions.len(),
    ensures
        ({
            let planned = plan_spec(partitions, capacity)->Ok_0[i];
            &&& partitions[i].end.resolve(capacity) > partitions[i].start.resolve(capacity)
            &&& planned.size_bytes == partitions[i].end.resolve(capacity)
                - partitions[i].start.resolve(capacity)
            &&& planned.size_bytes > 0
        }),
{
    lemma_plan_each(partitions, capacity);
    assert(partitions[i].planned(capacity) is Ok);
}

} // verus!
