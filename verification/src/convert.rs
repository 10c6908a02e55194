//! Client-facing projections of metadata and work, with names readable
//! only when the replica holds the file (and with it the material to
//! decode the name).

use vstd::prelude::*;

use crate::client::ClientState;
use crate::errors::SyncError;
use crate::types::FileMetadata;
use crate::types::FileMetadataView;
use crate::types::FileType;
use crate::types::dup_bytes;
use crate::work::WorkCalculated;
use crate::work::WorkUnit;
use crate::work::WorkUnitView;
use crate::work::unit_meta;

verus! {

/// A file as presented to a client surface.
pub struct ClientFileMetadata {
    pub id: u64,
    pub file_type: FileType,
    pub parent: u64,
    pub name: Vec<u8>,
    pub owner: Vec<u8>,
    pub metadata_version: u64,
    pub content_version: u64,
    pub deleted: bool,
}

/// Mathematical image of [`ClientFileMetadata`].
#[verifier::ext_equal]
pub struct ClientFileMetadataView {
    pub id: u64,
    pub file_type: FileType,
    pub parent: u64,
    pub name: Seq<u8>,
    pub owner: Seq<u8>,
    pub metadata_version: u64,
    pub content_version: u64,
    pub deleted: bool,
}

impl View for ClientFileMetadata {
    type V = ClientFileMetadataView;

    open spec fn view(&self) -> ClientFileMetadataView {
        ClientFileMetadataView {
            id: self.id,
            file_type: self.file_type,
            parent: self.parent,
            name: self.name@,
            owner: self.owner@,
            metadata_version: self.metadata_version,
            content_version: self.content_version,
            deleted: self.deleted,
        }
    }
}

/// The client projection of a metadata record.
pub open spec fn client_meta_of(m: FileMetadataView) -> ClientFileMetadataView {
    ClientFileMetadataView {
        id: m.id,
        file_type: m.file_type,
        parent: m.parent,
        name: m.name,
        owner: m.owner,
        metadata_version: m.metadata_version,
        content_version: m.content_version,
        deleted: m.deleted,
    }
}

/// A work unit as presented to a client surface: a server change whose
/// name the replica cannot decode yet is reported by id alone.
pub enum ClientWorkUnit {
    ServerUnknownName(u64),
    Server(ClientFileMetadata),
    Local(ClientFileMetadata),
}

/// A whole work pass as presented to a client surface.
pub struct ClientWorkCalculated {
    pub local_files: Vec<ClientFileMetadata>,
    pub server_files: Vec<ClientFileMetadata>,
    pub server_unknown_name_count: usize,
    pub most_recent_update_from_server: u64,
}

/// Projects one metadata record for a client surface. The name is
/// decodable only when the replica holds the file.
///
/// Fails with `Unexpected` exactly when the replica does not hold the id.
pub fn generate_client_file_metadata(client: &ClientState, meta: &FileMetadata) -> (r: Result<
    ClientFileMetadata,
    SyncError,
>)
    ensures
        match r {
            Ok(cm) => client@.files.contains_key(meta@.id) && cm@ == client_meta_of(meta@),
            Err(e) => e == SyncError::Unexpected && !client@.files.contains_key(meta@.id),
        },
{
    if !client.get_metadata(meta.id).is_some() {
        return Err(SyncError::Unexpected);
    }
    Ok(
        ClientFileMetadata {
            id: meta.id,
            file_type: meta.file_type,
            parent: meta.parent,
            name: dup_bytes(&meta.name),
            owner: dup_bytes(&meta.owner),
            metadata_version: meta.metadata_version,
            content_version: meta.content_version,
            deleted: meta.deleted,
        },
    )
}

/// Projects one work unit for a client surface. A server change for a
/// file the replica cannot name yet becomes `ServerUnknownName`; a local
/// change always names a held file.
///
/// Fails with `Unexpected` exactly when a local unit's file is not held.
pub fn generate_client_work_unit(client: &ClientState, work_unit: &WorkUnit) -> (r: Result<
    ClientWorkUnit,
    SyncError,
>)
    ensures
        ({
            let m = unit_meta(work_unit@);
            match r {
                Ok(cw) => match cw {
                    ClientWorkUnit::ServerUnknownName(id) => work_unit@ is ServerChange && id
                        == m.id && !client@.files.contains_key(m.id),
                    ClientWorkUnit::Server(cm) => work_unit@ is ServerChange
                        && client@.files.contains_key(m.id) && cm@ == client_meta_of(m),
                    ClientWorkUnit::Local(cm) => work_unit@ is LocalChange
                        && client@.files.contains_key(m.id) && cm@ == client_meta_of(m),
                },
                Err(e) => e == SyncError::Unexpected && work_unit@ is LocalChange
                    && !client@.files.contains_key(m.id),
            }
        }),
{
    match work_unit {
        WorkUnit::LocalChange { metadata } => {
            match generate_client_file_metadata(client, metadata) {
                Ok(cm) => Ok(ClientWorkUnit::Local(cm)),
                Err(e) => Err(e),
            }
        },
        WorkUnit::ServerChange { metadata } => {
            match generate_client_file_metadata(client, metadata) {
                Ok(cm) => Ok(ClientWorkUnit::Server(cm)),
                Err(_) => Ok(ClientWorkUnit::ServerUnknownName(metadata.id)),
            }
        },
    }
}

/// The client projections of the local units among `units`, in order.
pub open spec fn local_files_of(
    units: Seq<WorkUnitView>,
    files: Map<u64, FileMetadataView>,
) -> Seq<ClientFileMetadataView>
    decreases units.len(),
{
    if units.len() == 0 {
        Seq::empty()
    } else {
        let rest = local_files_of(units.drop_last(), files);
        if units.last() is LocalChange && files.contains_key(unit_meta(units.last()).id) {
            rest + seq![client_meta_of(unit_meta(units.last()))]
        } else {
            rest
        }
    }
}

/// The client projections of the nameable server units among `units`.
pub open spec fn server_files_of(
    units: Seq<WorkUnitView>,
    files: Map<u64, FileMetadataView>,
) -> Seq<ClientFileMetadataView>
    decreases units.len(),
{
    if units.len() == 0 {
        Seq::empty()
    } else {
        let rest = server_files_of(units.drop_last(), files);
        if units.last() is ServerChange && files.contains_key(unit_meta(units.last()).id) {
            rest + seq![client_meta_of(unit_meta(units.last()))]
        } else {
            rest
        }
    }
}

/// How many server units among `units` the replica cannot name yet.
pub open spec fn unknown_count_of(
    units: Seq<WorkUnitView>,
    files: Map<u64, FileMetadataView>,
) -> nat
    decreases units.len(),
{
    if units.len() == 0 {
        0
    } else {
        let rest = unknown_count_of(units.drop_last(), files);
        if units.last() is ServerChange && !files.contains_key(unit_meta(units.last()).id) {
            rest + 1
        } else {
            rest
        }
    }
}

/// Projects a whole work pass for a client surface, splitting the units
/// into local files, nameable server files, and a count of server files
/// the replica cannot name yet.
///
/// Fails with `Unexpected` exactly when some local unit's file is not
/// held by the replica.
pub fn generate_client_work_calculated(client: &ClientState, work_calculated: &WorkCalculated)
    -> (r: Result<ClientWorkCalculated, SyncError>)
    ensures
        ({
            let units = work_calculated.work_units@.map_values(|w: WorkUnit| w@);
            match r {
                Ok(cw) => {
                    &&& cw.local_files@.map_values(|m: ClientFileMetadata| m@) == local_files_of(
                        units,
                        client@.files,
                    )
                    &&& cw.server_files@.map_values(|m: ClientFileMetadata| m@) == server_files_of(
                        units,
                        client@.files,
                    )
                    &&& cw.server_unknown_name_count == unknown_count_of(units, client@.files)
                    &&& cw.most_recent_update_from_server
                        == work_calculated.most_recent_update_from_server
                    &&& forall|i: int|
                        0 <= i < units.len() ==> !((#[trigger] units[i]) is LocalChange
                            && !client@.files.contains_key(unit_meta(units[i]).id))
                },
                Err(e) => {
                    &&& e == SyncError::Unexpected
                    &&& exists|i: int|
                        0 <= i < units.len() && (#[trigger] units[i]) is LocalChange
                            && !client@.files.contains_key(unit_meta(units[i]).id)
                },
            }
        }),
{
    let ghost units = work_calculated.work_units@.map_values(|w: WorkUnit| w@);
    let mut local_files: Vec<ClientFileMetadata> = Vec::new();
    let mut server_files: Vec<ClientFileMetadata> = Vec::new();
    let mut unknown: usize = 0;
    let n = work_calculated.work_units.len();
    let mut i: usize = 0;
    proof {
        assert(local_files@.map_values(|m: ClientFileMetadata| m@) =~= local_files_of(
            units.subrange(0, 0),
            client@.files,
        ));
        assert(server_files@.map_values(|m: ClientFileMetadata| m@) =~= server_files_of(
            units.subrange(0, 0),
            client@.files,
        ));
    }
    while i < n
        invariant
            n == work_calculated.work_units@.len(),
            i <= n,
            units == work_calculated.work_units@.map_values(|w: WorkUnit| w@),
            local_files@.map_values(|m: ClientFileMetadata| m@) == local_files_of(
                units.subrange(0, i as int),
                client@.files,
            ),
            server_files@.map_values(|m: ClientFileMetadata| m@) == server_files_of(
                units.subrange(0, i as int),
                client@.files,
            ),
            unknown == unknown_count_of(units.subrange(0, i as int), client@.files),
            unknown <= i,
            forall|q: int|
                0 <= q < i ==> !((#[trigger] units[q]) is LocalChange
                    && !client@.files.contains_key(unit_meta(units[q]).id)),
        decreases n - i,
    {
        proof {
            assert(units.subrange(0, i + 1).drop_last() =~= units.subrange(0, i as int));
            assert(units.subrange(0, i + 1).last() == units[i as int]);
        }
        let unit = &work_calculated.work_units[i];
        match generate_client_work_unit(client, unit) {
            Ok(cw) => {
                match cw {
                    ClientWorkUnit::Local(cm) => {
                        local_files.push(cm);
                        proof {
                            assert(local_files@.map_values(|m: ClientFileMetadata| m@)
                                =~= local_files_of(units.subrange(0, i + 1), client@.files));
                        }
                    },
                    ClientWorkUnit::Server(cm) => {
                        server_files.push(cm);
                        proof {
                            assert(server_files@.map_values(|m: ClientFileMetadata| m@)
                                =~= server_files_of(units.subrange(0, i + 1), client@.files));
                        }
                    },
                    ClientWorkUnit::ServerUnknownName(_) => {
                        unknown = unknown + 1;
                    },
                }
            },
            Err(e) => {
                proof {
                    assert(units[i as int] is LocalChange && !client@.files.contains_key(
                        unit_meta(units[i as int]).id,
                    ));
                }
                return Err(e);
            },
        }
        i = i + 1;
    }
    proof {
        assert(units.subrange(0, n as int) =~= units);
    }
    Ok(
        ClientWorkCalculated {
            local_files,
            server_files,
            server_unknown_name_count: unknown,
            most_recent_update_from_server: work_calculated.most_recent_update_from_server,
        },
    )
}

} // verus!
