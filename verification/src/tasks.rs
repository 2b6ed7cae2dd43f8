//! Creation of admin-defined quest tasks.
//!
//! A task is a single completable action within a quest. An authorized
//! administrator submits a request body describing the task; the next task
//! identifier is one greater than the largest identifier already assigned
//! (1 when no task exists yet), and the new record carries fixed fields
//! marking it as a contract-type task with a well-known verification
//! endpoint. An unauthorized caller is refused and nothing is built.
//!
//! Allocation is read-max-plus-one: identifiers are unique and strictly
//! increasing only while creations are serialized upstream. Two creations
//! racing on the same read would allocate the same identifier; that
//! limitation is accepted here, not papered over.

use vstd::prelude::*;
use crate::errors::{get_error, ErrorResponse, ERROR_STATUS};

verus! {

/// One read-only contract call that a contract-type task asks the user to make.
pub struct ContractCall {
    pub contract_address: String,
    pub entry_point: String,
    pub calldata: Vec<String>,
}

/// The request body for creating a contract-type task.
pub struct CreateContract {
    pub quest_id: i64,
    pub name: String,
    pub desc: String,
    pub href: String,
    pub cta: String,
    pub calls: Vec<ContractCall>,
}

/// A persisted quest task record.
pub struct QuestTaskRecord {
    pub id: u32,
    pub quest_id: i64,
    pub name: String,
    pub desc: String,
    pub href: String,
    pub cta: String,
    pub verify_endpoint: String,
    pub verify_endpoint_type: String,
    pub task_type: String,
    pub calls: Vec<ContractCall>,
}

/// The identifier the next created task receives, given the largest
/// identifier already assigned (`None` when no task exists yet).
pub open spec fn next_id_of(last_id: Option<u32>) -> int {
    match last_id {
        Option::None => 1,
        Option::Some(v) => v + 1,
    }
}

/// Allocate the next task identifier: one greater than the current maximum,
/// or 1 for an empty task collection.
pub fn next_task_id(last_id: Option<u32>) -> (id: u32)
    requires
        last_id matches Some(v) ==> v < u32::MAX,
    ensures
        id == next_id_of(last_id),
{
    match last_id {
        Option::None => 1,
        Option::Some(v) => v + 1,
    }
}

/// Build the task record that an authorized creation request persists.
///
/// An unauthorized caller always receives the authorization error and no
/// record is built. For an authorized caller the record carries the freshly
/// allocated identifier, the fields of the request body, and the fixed
/// contract-task markers.
pub fn create_contract_task(authorized: bool, last_id: Option<u32>, body: CreateContract) -> (r:
    Result<QuestTaskRecord, ErrorResponse>)
    requires
        authorized ==> (last_id matches Some(v) ==> v < u32::MAX),
    ensures
        !authorized ==> (r matches Err(e) && e.status == ERROR_STATUS && e.message@
            == "Error creating task"@),
        authorized ==> (r matches Ok(t) && t.id == next_id_of(last_id) && t.quest_id
            == body.quest_id && t.name == body.name && t.desc == body.desc && t.href == body.href
            && t.cta == body.cta && t.calls == body.calls && t.verify_endpoint@
            == "quests/verify_contract"@ && t.verify_endpoint_type@ == "default"@ && t.task_type@
            == "contract"@),
{
    if !authorized {
        return Err(get_error("Error creating task".to_owned()));
    }
    let id = next_task_id(last_id);
    Ok(
        QuestTaskRecord {
            id,
            quest_id: body.quest_id,
            name: body.name,
            desc: body.desc,
            href: body.href,
            cta: body.cta,
            verify_endpoint: "quests/verify_contract".to_owned(),
            verify_endpoint_type: "default".to_owned(),
            task_type: "contract".to_owned(),
            calls: body.calls,
        },
    )
}

/// Map the persistence outcome of a task insert to the caller's response:
/// the fixed success message on success, the generic creation error
/// otherwise (the underlying database error is not surfaced).
pub fn task_creation_response(insert_ok: bool) -> (r: Result<String, ErrorResponse>)
    ensures
        insert_ok ==> (r matches Ok(m) && m@ == "Task created successfully"@),
        !insert_ok ==> (r matches Err(e) && e.status == ERROR_STATUS && e.message@
            == "Error creating tasks"@),
{
    if insert_ok {
        Ok("Task created successfully".to_owned())
    } else {
        Err(get_error("Error creating tasks".to_owned()))
    }
}

} // verus!
