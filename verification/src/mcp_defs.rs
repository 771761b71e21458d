//! The tools the mesh extension offers over MCP.

use vstd::prelude::*;

verus! {

/// An MCP tool: an HTTP endpoint with its input schema (JSON text).
#[derive(Debug, Clone)]
pub struct ToolDef {
    pub name: String,
    pub description: String,
    pub method: String,
    pub path: String,
    pub input_schema: String,
    pub min_ring: String,
    pub path_params: Vec<String>,
}

pub struct ToolInfo {
    pub name: Seq<char>,
    pub description: Seq<char>,
    pub method: Seq<char>,
    pub path: Seq<char>,
    pub input_schema: Seq<char>,
    pub min_ring: Seq<char>,
    pub path_params: Seq<Seq<char>>,
}

pub open spec fn tool_view(t: ToolDef) -> ToolInfo {
    ToolInfo {
        name: t.name@,
        description: t.description@,
        method: t.method@,
        path: t.path@,
        input_schema: t.input_schema@,
        min_ring: t.min_ring@,
        path_params: crate::peers_types::strings_view(t.path_params@),
    }
}

/// An object with no properties: these tools take no input.
pub open spec fn no_input_schema() -> Seq<char> {
    "{\"type\":\"object\",\"properties\":{}}"@
}

pub open spec fn get_tool(name: Seq<char>, description: Seq<char>, path: Seq<char>) -> ToolInfo {
    ToolInfo {
        name,
        description,
        method: "GET"@,
        path,
        input_schema: no_input_schema(),
        min_ring: "community"@,
        path_params: Seq::empty(),
    }
}

pub open spec fn mesh_tools_spec() -> Seq<ToolInfo> {
    seq![
        get_tool("cvg_mesh_status"@, "Get peer topology and active connections."@, "/api/mesh"@),
        get_tool(
            "cvg_node_readiness"@,
            "Run node health checks and return readiness report."@,
            "/api/node/readiness"@,
        ),
    ]
}

fn get_tool_def(name: &str, description: &str, path: &str) -> (t: ToolDef)
    ensures
        tool_view(t) == get_tool(name@, description@, path@),
{
    let t = ToolDef {
        name: name.to_owned(),
        description: description.to_owned(),
        method: "GET".to_owned(),
        path: path.to_owned(),
        input_schema: "{\"type\":\"object\",\"properties\":{}}".to_owned(),
        min_ring: "community".to_owned(),
        path_params: Vec::new(),
    };
    assert(crate::peers_types::strings_view(t.path_params@) =~= Seq::<Seq<char>>::empty());
    t
}

/// The mesh status and node readiness tools.
pub fn mesh_tools() -> (r: Vec<ToolDef>)
    ensures
        r@.map_values(|t: ToolDef| tool_view(t)) == mesh_tools_spec(),
{
    let mut v: Vec<ToolDef> = Vec::new();
    v.push(get_tool_def("cvg_mesh_status", "Get peer topology and active connections.", "/api/mesh"));
    v.push(
        get_tool_def(
            "cvg_node_readiness",
            "Run node health checks and return readiness report.",
            "/api/node/readiness",
        ),
    );
    assert(v@.map_values(|t: ToolDef| tool_view(t)) =~= mesh_tools_spec());
    v
}

} // verus!
