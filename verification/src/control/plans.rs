//! Plans and inventories as they are recorded.
use crate::agent::inventory::{
    flags_json, interface_views, interfaces_json, write_flags, write_interfaces, NodeInventory,
};
use crate::agent::plan::{CommandView, EndpointPlanView, PlanView};
use crate::control::error::{internal, ApiError, ApiErrorKind};
use crate::control::network::plan_missing;
use crate::json::{
    array_member, array_value, json_views, member, member_at, member_views, nested_views, no_items,
    no_members, object_value, or_none, push_item, push_member, text_in, text_member, text_value,
    texts_json, texts_value, JsonValue, JsonView,
};
use crate::text::{append, copy, string_views};
use crate::wire::{
    wire_commands, wire_endpoints, WireCommand, WireEndpointPlan, WirePlan,
};
use vstd::prelude::*;

verus! {

/// A command as it is recorded.
pub open spec fn command_json(c: CommandView) -> JsonView {
    JsonView::Object(
        seq![("program"@, JsonView::Text(c.program)), ("args"@, texts_json(c.args))],
    )
}

/// Commands as they are recorded.
pub open spec fn commands_json(list: Seq<CommandView>) -> JsonView {
    JsonView::Array(list.map_values(|c: CommandView| command_json(c)))
}

/// What becomes of one end, as it is recorded.
pub open spec fn endpoint_json(e: EndpointPlanView) -> JsonView {
    JsonView::Object(
        seq![
            ("role"@, JsonView::Text(e.role)),
            ("namespace"@, JsonView::Text(e.namespace)),
            ("interface"@, JsonView::Text(e.interface)),
            ("addresses"@, texts_json(e.addresses)),
        ],
    )
}

/// What becomes of the ends, as it is recorded.
pub open spec fn endpoints_json(list: Seq<EndpointPlanView>) -> JsonView {
    JsonView::Array(list.map_values(|e: EndpointPlanView| endpoint_json(e)))
}

/// A plan as it is recorded.
pub open spec fn plan_json(p: PlanView) -> JsonView {
    JsonView::Object(
        seq![
            ("profile_revision_id"@, JsonView::Text(p.profile_revision_id)),
            ("node_id"@, JsonView::Text(p.node_id)),
            ("inventory_fingerprint"@, JsonView::Text(p.inventory_fingerprint)),
            ("endpoints"@, endpoints_json(p.endpoints)),
            ("semantic_changes"@, texts_json(p.semantic_changes)),
            ("commands"@, commands_json(p.commands)),
            ("rollback_commands"@, commands_json(p.rollback_commands)),
            ("warnings"@, texts_json(p.warnings)),
        ],
    )
}

/// A text member, or an empty text.
pub open spec fn text_field(value: JsonView, name: Seq<char>) -> Seq<char> {
    match text_member(value, name) {
        Some(text) => text,
        None => Seq::empty(),
    }
}

/// The texts among the first `n` values.
pub open spec fn texts_in(items: Seq<JsonView>, n: int) -> Seq<Seq<char>>
    decreases n,
{
    if n <= 0 {
        Seq::empty()
    } else {
        match text_in(items[n - 1]) {
            Some(text) => texts_in(items, n - 1).push(text),
            None => texts_in(items, n - 1),
        }
    }
}

/// The texts of an array member.
pub open spec fn texts_field(value: JsonView, name: Seq<char>) -> Seq<Seq<char>> {
    let items = or_none(array_member(value, name));
    texts_in(items, items.len() as int)
}

/// The command that a record stands for.
pub open spec fn command_in(value: JsonView) -> CommandView {
    CommandView {
        program: text_field(value, "program"@),
        args: texts_field(value, "args"@),
    }
}

/// The commands that a member of a record stands for, or what is said if it is missing.
pub open spec fn commands_in(value: JsonView, name: Seq<char>) -> Result<
    Seq<CommandView>,
    Seq<char>,
> {
    match array_member(value, name) {
        Some(items) => Ok(items.map_values(|v: JsonView| command_in(v))),
        None => Err("plan "@ + name + " is missing"@),
    }
}

/// What becomes of one end by a record.
pub open spec fn endpoint_in(value: JsonView) -> EndpointPlanView {
    EndpointPlanView {
        role: text_field(value, "role"@),
        namespace: text_field(value, "namespace"@),
        interface: text_field(value, "interface"@),
        addresses: texts_field(value, "addresses"@),
    }
}

/// The plan that a record stands for, or what is said if its commands are missing.
pub open spec fn plan_in(value: JsonView) -> Result<PlanView, Seq<char>> {
    match (commands_in(value, "commands"@), commands_in(value, "rollback_commands"@)) {
        (Err(message), _) => Err(message),
        (Ok(_), Err(message)) => Err(message),
        (Ok(commands), Ok(rollback_commands)) => Ok(
            PlanView {
                profile_revision_id: text_field(value, "profile_revision_id"@),
                node_id: text_field(value, "node_id"@),
                inventory_fingerprint: text_field(value, "inventory_fingerprint"@),
                endpoints: or_none(array_member(value, "endpoints"@)).map_values(
                    |v: JsonView| endpoint_in(v),
                ),
                semantic_changes: texts_field(value, "semantic_changes"@),
                commands,
                rollback_commands,
                warnings: texts_field(value, "warnings"@),
            },
        ),
    }
}

proof fn texts_are_kept(list: Seq<Seq<char>>, n: int)
    requires
        0 <= n <= list.len(),
    ensures
        texts_in(texts_json(list)->Array_0, n) == list.subrange(0, n),
    decreases n,
{
    if n > 0 {
        texts_are_kept(list, n - 1);
        assert(list.subrange(0, n) =~= list.subrange(0, n - 1).push(list[n - 1]));
    } else {
        assert(list.subrange(0, 0) =~= Seq::empty());
    }
}

proof fn all_texts_are_kept(list: Seq<Seq<char>>)
    ensures
        texts_in(texts_json(list)->Array_0, list.len() as int) == list,
{
    texts_are_kept(list, list.len() as int);
    assert(list.subrange(0, list.len() as int) =~= list);
}

proof fn commands_are_kept(c: CommandView)
    ensures
        command_in(command_json(c)) == c,
{
    reveal_strlit("program");
    reveal_strlit("args");
    reveal_with_fuel(member_at, 3);
    assert("program"@.len() != "args"@.len());
    all_texts_are_kept(c.args);
    let value = command_json(c);
    assert(member(value, "program"@) == Some(JsonView::Text(c.program)));
    assert(member(value, "args"@) == Some(texts_json(c.args)));
    assert(command_in(value) =~= c);
}

proof fn endpoints_are_kept(e: EndpointPlanView)
    ensures
        endpoint_in(endpoint_json(e)) == e,
{
    reveal_strlit("role");
    reveal_strlit("namespace");
    reveal_strlit("interface");
    reveal_strlit("addresses");
    reveal_with_fuel(member_at, 5);
    assert("role"@.len() == 4 && "namespace"@.len() == 9 && "interface"@.len() == 9
        && "addresses"@.len() == 9);
    assert("namespace"@[0] != "interface"@[0] && "namespace"@[0] != "addresses"@[0]
        && "interface"@[0] != "addresses"@[0]);
    all_texts_are_kept(e.addresses);
    let value = endpoint_json(e);
    assert(member(value, "role"@) == Some(JsonView::Text(e.role)));
    assert(member(value, "namespace"@) == Some(JsonView::Text(e.namespace)));
    assert(member(value, "interface"@) == Some(JsonView::Text(e.interface)));
    assert(member(value, "addresses"@) == Some(texts_json(e.addresses)));
    assert(endpoint_in(value) =~= e);
}

proof fn plan_names_differ()
    ensures
        "profile_revision_id"@.len() == 19,
        "node_id"@.len() == 7,
        "inventory_fingerprint"@.len() == 21,
        "endpoints"@.len() == 9,
        "semantic_changes"@.len() == 16,
        "commands"@.len() == 8,
        "rollback_commands"@.len() == 17,
        "warnings"@.len() == 8,
        "commands"@ != "warnings"@,
{
    reveal_strlit("profile_revision_id");
    reveal_strlit("node_id");
    reveal_strlit("inventory_fingerprint");
    reveal_strlit("endpoints");
    reveal_strlit("semantic_changes");
    reveal_strlit("commands");
    reveal_strlit("rollback_commands");
    reveal_strlit("warnings");
    assert("commands"@[0] != "warnings"@[0]);
}

proof fn plan_members(p: PlanView)
    ensures
        ({
            let value = plan_json(p);
            &&& member(value, "profile_revision_id"@) == Some(
                JsonView::Text(p.profile_revision_id),
            )
            &&& member(value, "node_id"@) == Some(JsonView::Text(p.node_id))
            &&& member(value, "inventory_fingerprint"@) == Some(
                JsonView::Text(p.inventory_fingerprint),
            )
            &&& member(value, "endpoints"@) == Some(endpoints_json(p.endpoints))
            &&& member(value, "semantic_changes"@) == Some(texts_json(p.semantic_changes))
            &&& member(value, "commands"@) == Some(commands_json(p.commands))
            &&& member(value, "rollback_commands"@) == Some(commands_json(p.rollback_commands))
            &&& member(value, "warnings"@) == Some(texts_json(p.warnings))
        }),
{
    plan_names_differ();
    reveal_with_fuel(member_at, 9);
}

/// A plan that is recorded and read back is the same plan.
pub proof fn recorded_plans_are_kept(p: PlanView)
    ensures
        plan_in(plan_json(p)) == Ok::<PlanView, Seq<char>>(p),
{
    plan_members(p);
    let value = plan_json(p);
    all_texts_are_kept(p.semantic_changes);
    all_texts_are_kept(p.warnings);
    let commands = commands_in(value, "commands"@)->Ok_0;
    assert(commands =~= p.commands) by {
        assert forall|i: int| 0 <= i < p.commands.len() implies commands[i] == p.commands[i] by {
            commands_are_kept(p.commands[i]);
        }
    }
    let undo = commands_in(value, "rollback_commands"@)->Ok_0;
    assert(undo =~= p.rollback_commands) by {
        assert forall|i: int| 0 <= i < p.rollback_commands.len() implies undo[i]
            == p.rollback_commands[i] by {
            commands_are_kept(p.rollback_commands[i]);
        }
    }
    let ends = or_none(array_member(value, "endpoints"@)).map_values(|v: JsonView| endpoint_in(v));
    assert(ends =~= p.endpoints) by {
        assert forall|i: int| 0 <= i < p.endpoints.len() implies ends[i] == p.endpoints[i] by {
            endpoints_are_kept(p.endpoints[i]);
        }
    }
    assert(plan_in(value)->Ok_0 =~= p);
}

/// A command as it is recorded.
fn write_command(c: &WireCommand) -> (r: JsonValue)
    ensures
        r@ == command_json(c@),
{
    let mut members = no_members();
    push_member(&mut members, "program", text_value(c.program.as_str()));
    push_member(&mut members, "args", texts_value(&c.args));
    let r = object_value(members);
    assert(r@->Object_0 =~= command_json(c@)->Object_0);
    r
}

/// Commands as they are recorded.
fn write_commands(list: &Vec<WireCommand>) -> (r: JsonValue)
    ensures
        r@ == commands_json(wire_commands(list@)),
{
    let ghost goal = commands_json(wire_commands(list@))->Array_0;
    let mut items = no_items();
    let mut i: usize = 0;
    while i < list.len()
        invariant
            goal == wire_commands(list@).map_values(|c: CommandView| command_json(c)),
            i <= list@.len(),
            json_views(items@) == goal.subrange(0, i as int),
        decreases list@.len() - i,
    {
        push_item(&mut items, write_command(&list[i]));
        assert(json_views(items@) =~= goal.subrange(0, i + 1));
        i += 1;
    }
    assert(goal.subrange(0, i as int) =~= goal);
    array_value(items)
}

/// What becomes of one end, as it is recorded.
fn write_endpoint(e: &WireEndpointPlan) -> (r: JsonValue)
    ensures
        r@ == endpoint_json(e@),
{
    let mut members = no_members();
    push_member(&mut members, "role", text_value(e.role.as_str()));
    push_member(&mut members, "namespace", text_value(e.namespace.as_str()));
    push_member(&mut members, "interface", text_value(e.interface.as_str()));
    push_member(&mut members, "addresses", texts_value(&e.addresses));
    let r = object_value(members);
    assert(r@->Object_0 =~= endpoint_json(e@)->Object_0);
    r
}

/// What becomes of the ends, as it is recorded.
fn write_endpoints(list: &Vec<WireEndpointPlan>) -> (r: JsonValue)
    ensures
        r@ == endpoints_json(wire_endpoints(list@)),
{
    let ghost goal = endpoints_json(wire_endpoints(list@))->Array_0;
    let mut items = no_items();
    let mut i: usize = 0;
    while i < list.len()
        invariant
            goal == wire_endpoints(list@).map_values(|e: EndpointPlanView| endpoint_json(e)),
            i <= list@.len(),
            json_views(items@) == goal.subrange(0, i as int),
        decreases list@.len() - i,
    {
        push_item(&mut items, write_endpoint(&list[i]));
        assert(json_views(items@) =~= goal.subrange(0, i + 1));
        i += 1;
    }
    assert(goal.subrange(0, i as int) =~= goal);
    array_value(items)
}

/// A plan as it is recorded.
pub fn plan_to_json(value: &WirePlan) -> (r: JsonValue)
    ensures
        r@ == plan_json(value@),
{
    let mut members = no_members();
    push_member(
        &mut members,
        "profile_revision_id",
        text_value(value.profile_revision_id.as_str()),
    );
    push_member(&mut members, "node_id", text_value(value.node_id.as_str()));
    push_member(
        &mut members,
        "inventory_fingerprint",
        text_value(value.inventory_fingerprint.as_str()),
    );
    push_member(&mut members, "endpoints", write_endpoints(&value.endpoints));
    push_member(&mut members, "semantic_changes", texts_value(&value.semantic_changes));
    push_member(&mut members, "commands", write_commands(&value.commands));
    push_member(&mut members, "rollback_commands", write_commands(&value.rollback_commands));
    push_member(&mut members, "warnings", texts_value(&value.warnings));
    let r = object_value(members);
    assert(r@->Object_0 =~= plan_json(value@)->Object_0);
    r
}

/// A text member, or an empty text.
pub fn string_field(value: &JsonValue, name: &str) -> (r: String)
    ensures
        r@ == text_field(value@, name@),
{
    match value.copy_text(name) {
        Some(text) => text,
        None => String::new(),
    }
}

/// The texts of an array member.
pub fn string_array(value: &JsonValue, name: &str) -> (r: Vec<String>)
    ensures
        string_views(r@) == texts_field(value@, name@),
{
    let mut list: Vec<String> = Vec::new();
    assert(string_views(list@) =~= Seq::<Seq<char>>::empty());
    if let Some(items) = value.get_array(name) {
        let ghost views = json_views(items@);
        let mut i: usize = 0;
        while i < items.len()
            invariant
                views == json_views(items@),
                i <= items@.len(),
                string_views(list@) == texts_in(views, i as int),
            decreases items@.len() - i,
        {
            assert(views[i as int] == items@[i as int]@);
            if let JsonValue::Text(text) = &items[i] {
                let ghost before = list@;
                list.push(copy(text.as_str()));
                assert(string_views(list@) =~= string_views(before).push(text@));
            }
            i += 1;
        }
    }
    list
}

/// The commands that a member of a record stands for.
fn read_commands(value: &JsonValue, name: &str) -> (r: Result<Vec<WireCommand>, ApiError>)
    ensures
        match r {
            Ok(list) => commands_in(value@, name@) == Ok::<Seq<CommandView>, Seq<char>>(
                wire_commands(list@),
            ),
            Err(error) => commands_in(value@, name@) is Err && error@ == internal(
                commands_in(value@, name@)->Err_0,
            ),
        },
{
    match value.get_array(name) {
        None => {
            let mut message = copy("plan ");
            append(&mut message, name);
            append(&mut message, " is missing");
            Err(ApiError::internal(message.as_str()))
        },
        Some(items) => {
            let ghost goal = json_views(items@).map_values(|v: JsonView| command_in(v));
            let mut list: Vec<WireCommand> = Vec::new();
            let mut i: usize = 0;
            while i < items.len()
                invariant
                    goal == json_views(items@).map_values(|v: JsonView| command_in(v)),
                    i <= items@.len(),
                    list@.len() == i,
                    forall|j: int| 0 <= j < i ==> (#[trigger] list@[j])@ == goal[j],
                decreases items@.len() - i,
            {
                list.push(
                    WireCommand {
                        program: string_field(&items[i], "program"),
                        args: string_array(&items[i], "args"),
                    },
                );
                assert(list@[i as int]@ =~= goal[i as int]);
                i += 1;
            }
            assert(wire_commands(list@) =~= goal);
            Ok(list)
        },
    }
}

/// What becomes of the ends by a record.
fn read_endpoints(value: &JsonValue) -> (r: Vec<WireEndpointPlan>)
    ensures
        wire_endpoints(r@) == or_none(array_member(value@, "endpoints"@)).map_values(
            |v: JsonView| endpoint_in(v),
        ),
{
    let ghost goal = or_none(array_member(value@, "endpoints"@)).map_values(
        |v: JsonView| endpoint_in(v),
    );
    let mut list: Vec<WireEndpointPlan> = Vec::new();
    if let Some(items) = value.get_array("endpoints") {
        let mut i: usize = 0;
        while i < items.len()
            invariant
                goal == json_views(items@).map_values(|v: JsonView| endpoint_in(v)),
                i <= items@.len(),
                list@.len() == i,
                forall|j: int| 0 <= j < i ==> (#[trigger] list@[j])@ == goal[j],
            decreases items@.len() - i,
        {
            list.push(
                WireEndpointPlan {
                    role: string_field(&items[i], "role"),
                    namespace: string_field(&items[i], "namespace"),
                    interface: string_field(&items[i], "interface"),
                    addresses: string_array(&items[i], "addresses"),
                },
            );
            assert(list@[i as int]@ =~= goal[i as int]);
            i += 1;
        }
    }
    assert(wire_endpoints(list@) =~= goal);
    list
}

/// The plan that a record stands for.
pub fn json_to_plan(value: &JsonValue) -> (r: Result<WirePlan, ApiError>)
    ensures
        match r {
            Ok(plan) => plan_in(value@) == Ok::<PlanView, Seq<char>>(plan@),
            Err(error) => plan_in(value@) is Err && error@ == internal(plan_in(value@)->Err_0),
        },
{
    let commands = match read_commands(value, "commands") {
        Ok(list) => list,
        Err(error) => {
            return Err(error);
        },
    };
    let rollback_commands = match read_commands(value, "rollback_commands") {
        Ok(list) => list,
        Err(error) => {
            return Err(error);
        },
    };
    let plan = WirePlan {
        profile_revision_id: string_field(value, "profile_revision_id"),
        node_id: string_field(value, "node_id"),
        inventory_fingerprint: string_field(value, "inventory_fingerprint"),
        endpoints: read_endpoints(value),
        semantic_changes: string_array(value, "semantic_changes"),
        commands,
        rollback_commands,
        warnings: string_array(value, "warnings"),
    };
    assert(plan@ =~= plan_in(value@)->Ok_0);
    Ok(plan)
}

/// An inventory as it is recorded.
pub open spec fn inventory_json(value: NodeInventory) -> JsonView {
    JsonView::Object(
        seq![
            ("interfaces"@, interfaces_json(interface_views(value.interfaces@))),
            ("capabilities"@, flags_json(value.capabilities@)),
            ("protected_interfaces"@, texts_json(string_views(value.protected_interfaces@))),
            ("fingerprint"@, JsonView::Text(value.fingerprint@)),
        ],
    )
}

/// An inventory as it is recorded.
pub fn inventory_to_json(value: &NodeInventory) -> (r: JsonValue)
    ensures
        r@ == inventory_json(*value),
{
    let mut members = no_members();
    push_member(&mut members, "interfaces", write_interfaces(&value.interfaces));
    push_member(&mut members, "capabilities", write_flags(&value.capabilities));
    push_member(&mut members, "protected_interfaces", texts_value(&value.protected_interfaces));
    push_member(&mut members, "fingerprint", text_value(value.fingerprint.as_str()));
    let r = object_value(members);
    assert(r@->Object_0 =~= inventory_json(*value)->Object_0);
    r
}

/// The plans of the nodes, as they are recorded.
pub open spec fn node_plans_json(nodes: Seq<Seq<char>>, plans: Seq<PlanView>) -> JsonView {
    JsonView::Object(
        Seq::new(nodes.len(), |i: int| (nodes[i], plan_json(plans[i]))),
    )
}

/// What is recorded of a network that was planned.
pub open spec fn detail_json(nodes: Seq<Seq<char>>, plans: Seq<PlanView>) -> JsonView {
    JsonView::Object(
        seq![("nodes"@, texts_json(nodes)), ("plans"@, node_plans_json(nodes, plans))],
    )
}

/// What plans are.
pub open spec fn wire_plans(list: Seq<WirePlan>) -> Seq<PlanView> {
    list.map_values(|p: WirePlan| p@)
}

/// The plan in the reply of a node.
pub fn plan_in_reply(reply: Option<WirePlan>) -> (r: Result<WirePlan, ApiError>)
    ensures
        match r {
            Ok(plan) => reply == Some(plan),
            Err(error) => reply is None && error@ == internal(
                "agent plan response is missing plan"@,
            ),
        },
{
    match reply {
        Some(plan) => Ok(plan),
        None => Err(ApiError::internal("agent plan response is missing plan")),
    }
}

/// What is recorded of a network that was planned.
pub fn plan_detail(nodes: &Vec<String>, plans: &Vec<WirePlan>) -> (r: JsonValue)
    requires
        nodes@.len() == plans@.len(),
    ensures
        r@ == detail_json(string_views(nodes@), wire_plans(plans@)),
{
    let ghost goal = node_plans_json(string_views(nodes@), wire_plans(plans@))->Object_0;
    let mut list = no_members();
    let mut i: usize = 0;
    while i < nodes.len()
        invariant
            nodes@.len() == plans@.len(),
            goal == node_plans_json(string_views(nodes@), wire_plans(plans@))->Object_0,
            i <= nodes@.len(),
            member_views(list@) == goal.subrange(0, i as int),
        decreases nodes@.len() - i,
    {
        push_member(&mut list, nodes[i].as_str(), plan_to_json(&plans[i]));
        assert(member_views(list@) =~= goal.subrange(0, i + 1));
        i += 1;
    }
    assert(goal.subrange(0, i as int) =~= goal);
    let mut members = no_members();
    push_member(&mut members, "nodes", texts_value(nodes));
    push_member(&mut members, "plans", object_value(list));
    let r = object_value(members);
    assert(r@->Object_0 =~= detail_json(string_views(nodes@), wire_plans(plans@))->Object_0);
    r
}

/// What is recorded of a stage that a node went through: its plan where it sent one, or else what
/// went wrong.
pub open spec fn progress_json(plan: Option<PlanView>, error: Seq<char>) -> JsonView {
    match plan {
        Some(plan) => plan_json(plan),
        None => JsonView::Object(seq![("error"@, JsonView::Text(error))]),
    }
}

/// What is recorded of a stage that a node went through.
pub fn progress_detail(plan: &Option<WirePlan>, error: &str) -> (r: JsonValue)
    ensures
        r@ == progress_json(
            match *plan {
                Some(plan) => Some(plan@),
                None => None,
            },
            error@,
        ),
{
    match plan {
        Some(plan) => plan_to_json(plan),
        None => {
            let mut members = no_members();
            push_member(&mut members, "error", text_value(error));
            let r = object_value(members);
            assert(r@->Object_0 =~= progress_json(None, error@)->Object_0);
            r
        },
    }
}

/// How a stage that a node went through is called.
pub fn progress_status(ok: bool) -> (r: &'static str)
    ensures
        r@ == (if ok {
            "completed"@
        } else {
            "failed"@
        }),
{
    if ok {
        "completed"
    } else {
        "failed"
    }
}

/// The recorded plan of a node, or why there is none.
pub open spec fn recorded_for(detail: JsonView, node: Seq<char>) -> Result<PlanView, Seq<char>> {
    match member(detail, "plans"@) {
        Some(JsonView::Object(members)) => match member(JsonView::Object(members), node) {
            Some(value) => plan_in(value),
            None => Err("network plan missing node "@ + node),
        },
        _ => Err("network plan has no node plans"@),
    }
}

/// The recorded plan of a node.
pub fn recorded_plan(detail: &JsonValue, node: &str) -> (r: Result<WirePlan, ApiError>)
    ensures
        match r {
            Ok(plan) => recorded_for(detail@, node@) == Ok::<PlanView, Seq<char>>(plan@),
            Err(error) => error@.kind == ApiErrorKind::Internal && recorded_for(detail@, node@)
                == Err::<PlanView, Seq<char>>(error@.message),
        },
{
    match detail.get("plans") {
        Some(plans) => {
            proof {
                nested_views(*plans);
            }
            match plans {
                JsonValue::Object(_) => match plans.get(node) {
                    Some(value) => json_to_plan(value),
                    None => Err(plan_missing(node)),
                },
                _ => Err(ApiError::internal("network plan has no node plans")),
            }
        },
        None => Err(ApiError::internal("network plan has no node plans")),
    }
}

proof fn distinct_members_are_found(
    members: Seq<(Seq<char>, JsonView)>,
    from: int,
    i: int,
)
    requires
        0 <= from <= i < members.len(),
        forall|j: int| from <= j < i ==> (#[trigger] members[j]).0 != members[i].0,
    ensures
        member_at(members, members[i].0, from) == Some(i),
    decreases i - from,
{
    if from < i {
        assert(members[from].0 != members[i].0);
        distinct_members_are_found(members, from + 1, i);
    }
}

/// What was planned for a node is what is staged on it: the record of a planned network gives each
/// of its nodes back its plan.
pub proof fn planned_changes_are_staged(nodes: Seq<Seq<char>>, plans: Seq<PlanView>, i: int)
    requires
        nodes.len() == plans.len(),
        nodes.no_duplicates(),
        0 <= i < nodes.len(),
    ensures
        recorded_for(detail_json(nodes, plans), nodes[i]) == Ok::<PlanView, Seq<char>>(plans[i]),
{
    reveal_strlit("nodes");
    reveal_strlit("plans");
    assert("nodes"@[0] != "plans"@[0]);
    let detail = detail_json(nodes, plans);
    let list = detail->Object_0;
    assert(member_at(list, "plans"@, 1) == Some(1int));
    assert(member_at(list, "plans"@, 0) == Some(1int));
    let members = node_plans_json(nodes, plans)->Object_0;
    assert forall|j: int| 0 <= j < i implies (#[trigger] members[j]).0 != members[i].0 by {
        assert(nodes[j] != nodes[i]);
    }
    distinct_members_are_found(members, 0, i);
    recorded_plans_are_kept(plans[i]);
}

} // verus!
