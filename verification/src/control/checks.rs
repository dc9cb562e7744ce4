//! What is looked at before a run and when a network is diagnosed.
use crate::control::error::{api_problem, invalid_scenario, ApiError};
use crate::domain::scenario::{scenario_problem, Scenario};
use crate::id::{uuid_text, Uuid};
use crate::json::{
    array_member, array_value, json_views, no_items, no_members, object_value, push_item,
    push_member, text_value, JsonValue, JsonView,
};
use vstd::prelude::*;

verus! {

/// Whether a scenario is valid, or why it is not.
pub fn check_scenario(scenario: &Scenario) -> (r: Result<(), ApiError>)
    ensures
        api_problem(r) == (match scenario_problem(*scenario) {
            Some(message) => Some(invalid_scenario(message)),
            None => None,
        }),
{
    match scenario.validate() {
        Ok(_) => Ok(()),
        Err(error) => Err(ApiError::invalid_scenario(error.message())),
    }
}

/// Something that was looked at, as it is told: its name, the node if it is about one, whether it
/// is well, and what was found.
pub open spec fn check_json(
    name: Seq<char>,
    node_id: Option<Seq<char>>,
    ok: bool,
    detail: Option<JsonView>,
) -> JsonView {
    JsonView::Object(
        seq![("name"@, JsonView::Text(name))] + (match node_id {
            Some(id) => seq![("node_id"@, JsonView::Text(id))],
            None => Seq::empty(),
        }) + seq![("ok"@, JsonView::Bool(ok))] + (match detail {
            Some(value) => seq![("detail"@, value)],
            None => Seq::empty(),
        }),
    )
}

/// Something that was looked at, as it is told.
fn check_value(name: &str, node_id: Option<&str>, ok: bool, detail: Option<JsonValue>) -> (r:
    JsonValue)
    ensures
        r@ == check_json(
            name@,
            match node_id {
                Some(id) => Some(id@),
                None => None,
            },
            ok,
            match detail {
                Some(value) => Some(value@),
                None => None,
            },
        ),
{
    let ghost found = detail;
    let mut members = no_members();
    push_member(&mut members, "name", text_value(name));
    if let Some(id) = node_id {
        push_member(&mut members, "node_id", text_value(id));
    }
    push_member(&mut members, "ok", JsonValue::Bool(ok));
    if let Some(value) = detail {
        push_member(&mut members, "detail", value);
    }
    let r = object_value(members);
    assert(r@->Object_0 =~= check_json(
        name@,
        match node_id {
            Some(id) => Some(id@),
            None => None,
        },
        ok,
        match found {
            Some(value) => Some(value@),
            None => None,
        },
    )->Object_0);
    r
}

/// What is looked at before a run: both nodes are connected, and the network is prepared.
pub open spec fn run_checks(
    client: Seq<char>,
    client_there: bool,
    server: Seq<char>,
    server_there: bool,
    prepared: bool,
) -> Seq<JsonView> {
    seq![
        check_json("client_node"@, None, client_there, Some(JsonView::Text(client))),
        check_json("server_node"@, None, server_there, Some(JsonView::Text(server))),
        check_json(
            "network_profile"@,
            None,
            prepared,
            Some(
                JsonView::Text(
                    if prepared {
                        "prepared"@
                    } else {
                        "not prepared"@
                    },
                ),
            ),
        ),
    ]
}

/// What no check can tell.
pub open spec fn unseen() -> Seq<char> {
    "route, MTU, offload와 물리 경로는 Linux 실장비에서 별도 확인해야 합니다"@
}

/// What is told before a run: what was looked at, whether all of it is well, and what could not be
/// looked at.
pub fn preflight_report(
    client: &str,
    client_there: bool,
    server: &str,
    server_there: bool,
    prepared: bool,
) -> (r: JsonValue)
    ensures
        r@ == JsonView::Object(
            seq![
                ("ok"@, JsonView::Bool(client_there && server_there && prepared)),
                (
                    "checks"@,
                    JsonView::Array(
                        run_checks(client@, client_there, server@, server_there, prepared),
                    ),
                ),
                ("warnings"@, JsonView::Array(seq![JsonView::Text(unseen())])),
            ],
        ),
{
    let mut checks = no_items();
    push_item(
        &mut checks,
        check_value("client_node", None, client_there, Some(text_value(client))),
    );
    push_item(
        &mut checks,
        check_value("server_node", None, server_there, Some(text_value(server))),
    );
    let state = if prepared {
        "prepared"
    } else {
        "not prepared"
    };
    push_item(
        &mut checks,
        check_value("network_profile", None, prepared, Some(text_value(state))),
    );
    assert(json_views(checks@) =~= run_checks(
        client@,
        client_there,
        server@,
        server_there,
        prepared,
    ));
    let mut warnings = no_items();
    push_item(
        &mut warnings,
        text_value("route, MTU, offload와 물리 경로는 Linux 실장비에서 별도 확인해야 합니다"),
    );
    assert(json_views(warnings@) =~= seq![JsonView::Text(unseen())]);
    let mut members = no_members();
    push_member(
        &mut members,
        "ok",
        JsonValue::Bool(client_there && server_there && prepared),
    );
    push_member(&mut members, "checks", array_value(checks));
    push_member(&mut members, "warnings", array_value(warnings));
    let ghost views = crate::json::member_views(members@);
    assert(views =~= seq![views[0], views[1], views[2]]);
    object_value(members)
}

/// What is known of a node: the name of its host if it is connected, and its inventory.
#[derive(Debug)]
pub struct NodeState {
    pub node_id: String,
    pub hostname: Option<String>,
    pub inventory: JsonValue,
}

/// An inventory lists an interface.
pub open spec fn lists_interfaces(inventory: JsonView) -> bool {
    array_member(inventory, "interfaces"@) matches Some(items) && items.len() > 0
}

/// A node is well if it is connected and its inventory is known.
pub open spec fn node_is_well(node: NodeState) -> bool {
    node.hostname is Some && lists_interfaces(node.inventory@)
}

/// What is looked at on a node: it is connected, and its inventory is known.
pub open spec fn node_checks(node: NodeState) -> Seq<JsonView> {
    match node.hostname {
        Some(host) => seq![
            check_json("node_online"@, Some(node.node_id@), true, Some(JsonView::Text(host@))),
            check_json(
                "inventory_available"@,
                Some(node.node_id@),
                lists_interfaces(node.inventory@),
                Some(node.inventory@),
            ),
        ],
        None => seq![
            check_json(
                "node_online"@,
                Some(node.node_id@),
                false,
                Some(JsonView::Text("agent is offline"@)),
            ),
        ],
    }
}

/// What is looked at on the first `n` nodes.
pub open spec fn all_node_checks(nodes: Seq<NodeState>, n: int) -> Seq<JsonView>
    decreases n,
{
    if n <= 0 {
        Seq::empty()
    } else {
        all_node_checks(nodes, n - 1) + node_checks(nodes[n - 1])
    }
}

/// What is looked at when a network is diagnosed: its nodes, and whether its profile is valid.
pub open spec fn network_checks(nodes: Seq<NodeState>, valid: bool) -> Seq<JsonView> {
    all_node_checks(nodes, nodes.len() as int).push(
        check_json("profile_valid"@, None, valid, None),
    )
}

/// A network is well if all its nodes are and its profile is valid.
pub open spec fn network_is_well(nodes: Seq<NodeState>, valid: bool) -> bool {
    valid && forall|i: int| 0 <= i < nodes.len() ==> node_is_well(#[trigger] nodes[i])
}

/// What is told of a network that is diagnosed.
pub fn diagnosis(revision: Uuid, nodes: &Vec<NodeState>, valid: bool) -> (r: JsonValue)
    ensures
        r@ == JsonView::Object(
            seq![
                ("profile_revision_id"@, JsonView::Text(uuid_text(revision.value))),
                ("ok"@, JsonView::Bool(network_is_well(nodes@, valid))),
                ("checks"@, JsonView::Array(network_checks(nodes@, valid))),
                (
                    "note"@,
                    JsonView::Text(
                        "link reachability is verified again by run preflight from the selected namespace"@,
                    ),
                ),
            ],
        ),
{
    let mut checks = no_items();
    let mut well: bool = valid;
    let mut i: usize = 0;
    while i < nodes.len()
        invariant
            i <= nodes@.len(),
            json_views(checks@) == all_node_checks(nodes@, i as int),
            well == (valid && forall|j: int|
                0 <= j < i ==> node_is_well(#[trigger] nodes@[j])),
        decreases nodes@.len() - i,
    {
        let ghost before = json_views(checks@);
        let node: &NodeState = &nodes[i];
        let id: &str = node.node_id.as_str();
        match &node.hostname {
            Some(host) => {
                push_item(
                    &mut checks,
                    check_value("node_online", Some(id), true, Some(text_value(host.as_str()))),
                );
                let known: bool = match node.inventory.get_array("interfaces") {
                    Some(items) => items.len() > 0,
                    None => false,
                };
                well = well && known;
                push_item(
                    &mut checks,
                    check_value(
                        "inventory_available",
                        Some(id),
                        known,
                        Some(node.inventory.duplicate()),
                    ),
                );
            },
            None => {
                well = false;
                push_item(
                    &mut checks,
                    check_value(
                        "node_online",
                        Some(id),
                        false,
                        Some(text_value("agent is offline")),
                    ),
                );
            },
        }
        assert(json_views(checks@) =~= before + node_checks(nodes@[i as int]));
        i += 1;
    }
    push_item(&mut checks, check_value("profile_valid", None, valid, None));
    let mut members = no_members();
    let id = revision.to_text();
    push_member(&mut members, "profile_revision_id", text_value(id.as_str()));
    push_member(&mut members, "ok", JsonValue::Bool(well));
    push_member(&mut members, "checks", array_value(checks));
    push_member(
        &mut members,
        "note",
        text_value(
            "link reachability is verified again by run preflight from the selected namespace",
        ),
    );
    let ghost views = crate::json::member_views(members@);
    assert(views =~= seq![views[0], views[1], views[2], views[3]]);
    object_value(members)
}

} // verus!
