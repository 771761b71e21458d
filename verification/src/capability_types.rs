//! Types for the node capability registry.

use vstd::prelude::*;
use crate::peers_types::strings_view;
use crate::text::{extend_str, str_eq, string_of};

verus! {

/// A single capability declared by a node. `metadata` holds its JSON text.
#[derive(Debug, PartialEq)]
pub struct NodeCapability {
    pub name: String,
    pub version: String,
    pub tags: Vec<String>,
    pub metadata: String,
}

/// A capability as plain values.
pub struct CapabilityInfo {
    pub name: Seq<char>,
    pub version: Seq<char>,
    pub tags: Seq<Seq<char>>,
    pub metadata: Seq<char>,
}

impl View for NodeCapability {
    type V = CapabilityInfo;

    open spec fn view(&self) -> CapabilityInfo {
        CapabilityInfo {
            name: self.name@,
            version: self.version@,
            tags: strings_view(self.tags@),
            metadata: self.metadata@,
        }
    }
}

/// A copy of the strings.
pub fn copy_strings(v: &Vec<String>) -> (r: Vec<String>)
    ensures
        strings_view(r@) == strings_view(v@),
{
    let mut out: Vec<String> = Vec::new();
    let mut i: usize = 0;
    while i < v.len()
        invariant
            i <= v@.len(),
            strings_view(out@) == strings_view(v@).take(i as int),
        decreases v.len() - i,
    {
        let ghost o = out@;
        out.push(v[i].clone());
        assert(strings_view(out@) =~= strings_view(o).push(v@[i as int]@));
        assert(strings_view(v@).take(i + 1) =~= strings_view(v@).take(i as int).push(v@[i as int]@));
        i = i + 1;
    }
    assert(strings_view(v@).take(v@.len() as int) =~= strings_view(v@));
    out
}

impl NodeCapability {
    /// A copy with the same values.
    pub fn duplicate(&self) -> (r: Self)
        ensures
            r@ == self@,
    {
        NodeCapability {
            name: self.name.clone(),
            version: self.version.clone(),
            tags: copy_strings(&self.tags),
            metadata: self.metadata.clone(),
        }
    }
}

/// Well-known capability tags for routing decisions.
#[derive(Debug, Clone, Copy, PartialEq, Eq, Structural, Hash)]
pub enum CapabilityTag {
    Gpu,
    Voice,
    Compute,
    Storage,
    HighMemory,
    LowLatency,
    Inference,
    CodeExecution,
}

/// The snake-case name of a tag.
pub open spec fn tag_name(t: CapabilityTag) -> Seq<char> {
    match t {
        CapabilityTag::Gpu => "gpu"@,
        CapabilityTag::Voice => "voice"@,
        CapabilityTag::Compute => "compute"@,
        CapabilityTag::Storage => "storage"@,
        CapabilityTag::HighMemory => "high_memory"@,
        CapabilityTag::LowLatency => "low_latency"@,
        CapabilityTag::Inference => "inference"@,
        CapabilityTag::CodeExecution => "code_execution"@,
    }
}

/// The tag a name denotes, if any.
pub open spec fn tag_of_name(s: Seq<char>) -> Option<CapabilityTag> {
    if s == "gpu"@ {
        Some(CapabilityTag::Gpu)
    } else if s == "voice"@ {
        Some(CapabilityTag::Voice)
    } else if s == "compute"@ {
        Some(CapabilityTag::Compute)
    } else if s == "storage"@ {
        Some(CapabilityTag::Storage)
    } else if s == "high_memory"@ {
        Some(CapabilityTag::HighMemory)
    } else if s == "low_latency"@ {
        Some(CapabilityTag::LowLatency)
    } else if s == "inference"@ {
        Some(CapabilityTag::Inference)
    } else if s == "code_execution"@ {
        Some(CapabilityTag::CodeExecution)
    } else {
        None
    }
}

impl CapabilityTag {
    /// The tag's name, as its `Display` form writes it.
    pub fn as_str(&self) -> (s: &'static str)
        ensures
            s@ == tag_name(*self),
    {
        match self {
            CapabilityTag::Gpu => "gpu",
            CapabilityTag::Voice => "voice",
            CapabilityTag::Compute => "compute",
            CapabilityTag::Storage => "storage",
            CapabilityTag::HighMemory => "high_memory",
            CapabilityTag::LowLatency => "low_latency",
            CapabilityTag::Inference => "inference",
            CapabilityTag::CodeExecution => "code_execution",
        }
    }

    /// The tag's name as an owned string.
    pub fn to_string(&self) -> (s: String)
        ensures
            s@ == tag_name(*self),
    {
        self.as_str().to_owned()
    }

    /// Parses a tag name; unknown names are refused with a message.
    pub fn parse(s: &str) -> (r: Result<CapabilityTag, String>)
        ensures
            match tag_of_name(s@) {
                Some(t) => r == Ok::<CapabilityTag, String>(t),
                None => r is Err && r->Err_0@ == "unknown capability tag: "@ + s@,
            },
    {
        if str_eq(s, "gpu") {
            Ok(CapabilityTag::Gpu)
        } else if str_eq(s, "voice") {
            Ok(CapabilityTag::Voice)
        } else if str_eq(s, "compute") {
            Ok(CapabilityTag::Compute)
        } else if str_eq(s, "storage") {
            Ok(CapabilityTag::Storage)
        } else if str_eq(s, "high_memory") {
            Ok(CapabilityTag::HighMemory)
        } else if str_eq(s, "low_latency") {
            Ok(CapabilityTag::LowLatency)
        } else if str_eq(s, "inference") {
            Ok(CapabilityTag::Inference)
        } else if str_eq(s, "code_execution") {
            Ok(CapabilityTag::CodeExecution)
        } else {
            let mut m: Vec<char> = Vec::new();
            extend_str(&mut m, "unknown capability tag: ");
            extend_str(&mut m, s);
            Err(string_of(&m))
        }
    }
}

/// Every tag's name parses back to the tag.
pub proof fn lemma_tag_name_roundtrip(t: CapabilityTag)
    ensures
        tag_of_name(tag_name(t)) == Some(t),
{
    reveal_strlit("gpu");
    reveal_strlit("voice");
    reveal_strlit("compute");
    reveal_strlit("storage");
    reveal_strlit("high_memory");
    reveal_strlit("low_latency");
    reveal_strlit("inference");
    reveal_strlit("code_execution");
    let n = tag_name(t);
    assert(n.len() != 3 ==> n != "gpu"@);
    assert(n == "compute"@ ==> n[0] == 'c' && n[1] == 'o');
    assert(n == "storage"@ ==> n[0] == 's');
    assert(n == "inference"@ ==> n[0] == 'i');
    assert(n == "high_memory"@ ==> n[0] == 'h');
    assert(n == "low_latency"@ ==> n[0] == 'l');
    assert(n == "voice"@ ==> n[0] == 'v');
    assert(n == "code_execution"@ ==> n.len() == 14);
}

impl std::str::FromStr for CapabilityTag {
    type Err = String;

    fn from_str(s: &str) -> (r: Result<Self, Self::Err>)
        ensures
            match tag_of_name(s@) {
                Some(t) => r == Ok::<CapabilityTag, String>(t),
                None => r is Err && r->Err_0@ == "unknown capability tag: "@ + s@,
            },
    {
        CapabilityTag::parse(s)
    }
}

/// All capabilities for a single peer.
#[derive(Debug, PartialEq)]
pub struct NodeCapabilities {
    pub peer_name: String,
    pub capabilities: Vec<NodeCapability>,
    pub last_updated: String,
}

/// Query to find peers with specific capability tags.
#[derive(Debug, Clone)]
pub struct CapabilityQuery {
    pub required_tags: Vec<CapabilityTag>,
    pub min_version: Option<String>,
}

} // verus!
