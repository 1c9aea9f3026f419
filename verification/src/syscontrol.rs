//! System control commands: switches and limits an operator sets at run
//! time, each answered with a message and a small piece of data.

use vstd::prelude::*;
use vstd::string::*;
use crate::numbers::{parse_u64, u64_of_text};
use crate::text::{append_u64, dec_nat, push_str, str_eq};

verus! {

/// A control command.
#[derive(Debug, Clone)]
pub enum ControlCommand {
    Flush,
    Snapshot { duration_secs: Option<u64> },
    Backup { path: Option<String> },
    Readonly { enabled: bool },
    MemUsageLimit { limit_percent: u64 },
    VerifyNode { enabled: bool },
    BackgroundReadLimiter { limit: String },
    ChunkReaderParallel { limit: usize },
    InterruptQuery { enabled: bool },
    TimeFilterProtection { enabled: bool },
    DisableWrite { enabled: bool },
    DisableRead { enabled: bool },
    Compaction { enabled: bool, all_shards: bool },
    Merge { enabled: bool, all_shards: bool },
    DownsampleInOrder { enabled: bool },
    Unknown { command: String },
}

/// The value of the one entry of a response's data.
#[derive(Debug, Clone, PartialEq, Eq)]
pub enum ControlValue {
    Number(u64),
    Flag(bool),
    Text(String),
}

/// The abstract value of a data entry's value.
pub enum ControlValueView {
    Number(u64),
    Flag(bool),
    Text(Seq<char>),
}

impl View for ControlValue {
    type V = ControlValueView;

    open spec fn view(&self) -> ControlValueView {
        match self {
            ControlValue::Number(n) => ControlValueView::Number(*n),
            ControlValue::Flag(b) => ControlValueView::Flag(*b),
            ControlValue::Text(t) => ControlValueView::Text(t@),
        }
    }
}

/// The answer to a command: whether it succeeded, a message, and data of
/// one named value.
#[derive(Debug, Clone)]
pub struct ControlResponse {
    pub success: bool,
    pub message: String,
    pub data: Option<(String, ControlValue)>,
}

/// The abstract value of an answer.
pub struct ControlResponseView {
    pub success: bool,
    pub message: Seq<char>,
    pub data: Option<(Seq<char>, ControlValueView)>,
}

impl View for ControlResponse {
    type V = ControlResponseView;

    open spec fn view(&self) -> ControlResponseView {
        ControlResponseView {
            success: self.success,
            message: self.message@,
            data: match self.data {
                Some(d) => Some((d.0@, d.1@)),
                None => None,
            },
        }
    }
}

impl Default for ControlResponse {
    /// Success, with no message and no data.
    fn default() -> (r: Self)
        ensures
            r.success,
            r.message@.len() == 0,
            r.data is None,
    {
        ControlResponse { success: true, message: String::new(), data: None }
    }
}

/// The characters of each parameter, name and value.
pub open spec fn params_view(p: Seq<(&str, &str)>) -> Seq<(Seq<char>, Seq<char>)> {
    p.map_values(|t: (&str, &str)| (t.0@, t.1@))
}

/// The value of the first parameter named `a` or `b`.
pub open spec fn first_value(p: Seq<(Seq<char>, Seq<char>)>, a: Seq<char>, b: Seq<char>) -> Option<Seq<char>>
    decreases p.len(),
{
    if p.len() == 0 {
        None
    } else if p[0].0 == a || p[0].0 == b {
        Some(p[0].1)
    } else {
        first_value(p.drop_first(), a, b)
    }
}

/// A switch: on where the first parameter named `a` or `b` is `true` or
/// `1`, off where it is anything else, on where there is none.
pub open spec fn switch(p: Seq<(Seq<char>, Seq<char>)>, a: Seq<char>, b: Seq<char>) -> bool {
    match first_value(p, a, b) {
        Some(v) => v == "true"@ || v == "1"@,
        None => true,
    }
}

/// The text of a boolean.
pub open spec fn bool_text(b: bool) -> Seq<char> {
    if b { "true"@ } else { "false"@ }
}

/// A success with a message ending in a value, and the value named in the data.
pub open spec fn set_to(message: Seq<char>, shown: Seq<char>, key: Seq<char>, value: ControlValueView) -> ControlResponseView {
    ControlResponseView { success: true, message: message + shown, data: Some((key, value)) }
}

/// A success that reports a switch.
pub open spec fn switched(message: Seq<char>, key: Seq<char>, on: bool) -> ControlResponseView {
    set_to(message, bool_text(on), key, ControlValueView::Flag(on))
}

/// The answer to a command with its parameters: `flush` needs an engine;
/// the switches take `switchon` or `enabled` (`time_filter_protection` only
/// `enabled`, `downsample_in_order` `order`); `memusagelimit` takes a
/// number (85 by default), `chunk_reader_parallel` one (4 by default) and
/// `backgroundreadlimiter` a text (`100m` by default); any other command is
/// unknown.
pub open spec fn control_answer(command: Seq<char>, p: Seq<(Seq<char>, Seq<char>)>, engine_ready: bool) -> ControlResponseView {
    if command == "flush"@ {
        if engine_ready {
            ControlResponseView { success: true, message: "Flush completed successfully"@, data: None }
        } else {
            ControlResponseView { success: false, message: "Engine not initialized"@, data: None }
        }
    } else if command == "snapshot"@ {
        ControlResponseView { success: true, message: "Snapshot created"@, data: Some(("snapshot_id"@, ControlValueView::Number(1))) }
    } else if command == "backup"@ {
        ControlResponseView { success: true, message: "Backup created"@, data: Some(("backup_id"@, ControlValueView::Text("backup_1"@))) }
    } else if command == "readonly"@ {
        switched("Readonly mode set to: "@, "readonly"@, switch(p, "switchon"@, "enabled"@))
    } else if command == "memusagelimit"@ {
        let limit: u64 = match first_value(p, "limit"@, "limit"@) {
            Some(v) => match u64_of_text(v) { Some(n) => n, None => 85 },
            None => 85,
        };
        set_to("Memory usage limit set to: "@, dec_nat(limit as nat) + "%"@, "mem_limit_percent"@, ControlValueView::Number(limit))
    } else if command == "verifynode"@ {
        switched("Node verification set to: "@, "verify_node"@, switch(p, "switchon"@, "enabled"@))
    } else if command == "backgroundreadlimiter"@ {
        let limit = match first_value(p, "limit"@, "limit"@) { Some(v) => v, None => "100m"@ };
        set_to("Background read limiter set to: "@, limit, "background_read_limit"@, ControlValueView::Text(limit))
    } else if command == "chunk_reader_parallel"@ {
        let limit: u64 = match first_value(p, "limit"@, "limit"@) {
            Some(v) => match u64_of_text(v) { Some(n) => if n <= usize::MAX { n } else { 4 }, None => 4 },
            None => 4,
        };
        set_to("Chunk reader parallel limit set to: "@, dec_nat(limit as nat), "chunk_reader_parallel"@, ControlValueView::Number(limit))
    } else if command == "interruptquery"@ {
        switched("Query interruption set to: "@, "interrupt_query"@, switch(p, "switchon"@, "enabled"@))
    } else if command == "time_filter_protection"@ {
        switched("Time filter protection set to: "@, "time_filter_protection"@, switch(p, "enabled"@, "enabled"@))
    } else if command == "disablewrite"@ {
        switched("Write disabled set to: "@, "write_disabled"@, switch(p, "switchon"@, "enabled"@))
    } else if command == "disableread"@ {
        switched("Read disabled set to: "@, "read_disabled"@, switch(p, "switchon"@, "enabled"@))
    } else if command == "compen"@ {
        switched("Compaction set to: "@, "compaction_enabled"@, switch(p, "switchon"@, "enabled"@))
    } else if command == "merge"@ {
        switched("Merge set to: "@, "merge_enabled"@, switch(p, "switchon"@, "enabled"@))
    } else if command == "downsample_in_order"@ {
        switched("Downsample in order set to: "@, "downsample_in_order"@, switch(p, "order"@, "order"@))
    } else {
        ControlResponseView { success: false, message: "Unknown command: "@ + command, data: None }
    }
}

fn find_value<'a>(params: &[(&'a str, &'a str)], a: &str, b: &str) -> (r: Option<&'a str>)
    ensures
        match first_value(params_view(params@), a@, b@) {
            Some(v) => r matches Some(x) && x@ == v,
            None => r is None,
        },
{
    let mut i: usize = 0;
    proof { assert(params_view(params@).skip(0) =~= params_view(params@)); }
    while i < params.len()
        invariant
            i <= params@.len(),
            first_value(params_view(params@), a@, b@) == first_value(params_view(params@).skip(i as int), a@, b@),
        decreases params@.len() - i,
    {
        let (k, v) = params[i];
        proof {
            let rest = params_view(params@).skip(i as int);
            assert(rest.drop_first() =~= params_view(params@).skip(i + 1));
            assert(rest[0] == (k@, v@));
        }
        if str_eq(k, a) || str_eq(k, b) {
            return Some(v);
        }
        i = i + 1;
    }
    proof { assert(params_view(params@).skip(i as int) =~= Seq::<(Seq<char>, Seq<char>)>::empty()); }
    None
}

fn switch_of(params: &[(&str, &str)], a: &str, b: &str) -> (r: bool)
    ensures
        r == switch(params_view(params@), a@, b@),
{
    match find_value(params, a, b) {
        Some(v) => str_eq(v, "true") || str_eq(v, "1"),
        None => true,
    }
}

fn switch_response(message: &str, key: &str, on: bool) -> (r: ControlResponse)
    ensures
        r@ == switched(message@, key@, on),
{
    let mut m = message.to_owned();
    push_str(&mut m, if on { "true" } else { "false" });
    ControlResponse { success: true, message: m, data: Some((key.to_owned(), ControlValue::Flag(on))) }
}

fn number_response(message: &str, suffix: &str, key: &str, n: u64) -> (r: ControlResponse)
    ensures
        r@ == set_to(message@, dec_nat(n as nat) + suffix@, key@, ControlValueView::Number(n)),
{
    let mut m = message.to_owned();
    append_u64(&mut m, n);
    push_str(&mut m, suffix);
    proof { assert(message@ + dec_nat(n as nat) + suffix@ =~= message@ + (dec_nat(n as nat) + suffix@)); }
    ControlResponse { success: true, message: m, data: Some((key.to_owned(), ControlValue::Number(n))) }
}

/// The switches of the engine, as commands leave them.
#[derive(Debug, Clone)]
pub struct SystemControls {
    pub compaction_enabled: bool,
    pub merge_enabled: bool,
    pub readonly_mode: bool,
    pub write_disabled: bool,
    pub read_disabled: bool,
    pub query_interrupt_enabled: bool,
}

impl SystemControls {
    /// Compaction and merge on; reads and writes allowed; queries not interrupted.
    pub fn new() -> (r: Self)
        ensures
            r.compaction_enabled && r.merge_enabled,
            !r.readonly_mode && !r.write_disabled && !r.read_disabled && !r.query_interrupt_enabled,
    {
        SystemControls {
            compaction_enabled: true,
            merge_enabled: true,
            readonly_mode: false,
            write_disabled: false,
            read_disabled: false,
            query_interrupt_enabled: false,
        }
    }

    /// Answers a command; `engine_ready` says whether an engine is there to
    /// flush. The switches are reported, not kept.
    pub fn process_command(&mut self, command: &str, params: &[(&str, &str)], engine_ready: bool) -> (r: ControlResponse)
        ensures
            r@ == control_answer(command@, params_view(params@), engine_ready),
            *final(self) == *old(self),
    {
        proof {
            reveal_strlit("true");
            reveal_strlit("false");
        }
        if str_eq(command, "flush") {
            if engine_ready {
                ControlResponse { success: true, message: "Flush completed successfully".to_owned(), data: None }
            } else {
                ControlResponse { success: false, message: "Engine not initialized".to_owned(), data: None }
            }
        } else if str_eq(command, "snapshot") {
            ControlResponse { success: true, message: "Snapshot created".to_owned(), data: Some(("snapshot_id".to_owned(), ControlValue::Number(1))) }
        } else if str_eq(command, "backup") {
            ControlResponse {
                success: true,
                message: "Backup created".to_owned(),
                data: Some(("backup_id".to_owned(), ControlValue::Text("backup_1".to_owned()))),
            }
        } else if str_eq(command, "readonly") {
            switch_response("Readonly mode set to: ", "readonly", switch_of(params, "switchon", "enabled"))
        } else if str_eq(command, "memusagelimit") {
            let limit: u64 = match find_value(params, "limit", "limit") {
                Some(v) => match parse_u64(v) { Some(n) => n, None => 85 },
                None => 85,
            };
            number_response("Memory usage limit set to: ", "%", "mem_limit_percent", limit)
        } else if str_eq(command, "verifynode") {
            switch_response("Node verification set to: ", "verify_node", switch_of(params, "switchon", "enabled"))
        } else if str_eq(command, "backgroundreadlimiter") {
            let limit: &str = match find_value(params, "limit", "limit") { Some(v) => v, None => "100m" };
            let mut m = "Background read limiter set to: ".to_owned();
            push_str(&mut m, limit);
            ControlResponse { success: true, message: m, data: Some(("background_read_limit".to_owned(), ControlValue::Text(limit.to_owned()))) }
        } else if str_eq(command, "chunk_reader_parallel") {
            let limit: u64 = match find_value(params, "limit", "limit") {
                Some(v) => match parse_u64(v) { Some(n) => if n <= usize::MAX as u64 { n } else { 4 }, None => 4 },
                None => 4,
            };
            proof { reveal_strlit(""); }
            number_response("Chunk reader parallel limit set to: ", "", "chunk_reader_parallel", limit)
        } else if str_eq(command, "interruptquery") {
            switch_response("Query interruption set to: ", "interrupt_query", switch_of(params, "switchon", "enabled"))
        } else if str_eq(command, "time_filter_protection") {
            switch_response("Time filter protection set to: ", "time_filter_protection", switch_of(params, "enabled", "enabled"))
        } else if str_eq(command, "disablewrite") {
            switch_response("Write disabled set to: ", "write_disabled", switch_of(params, "switchon", "enabled"))
        } else if str_eq(command, "disableread") {
            switch_response("Read disabled set to: ", "read_disabled", switch_of(params, "switchon", "enabled"))
        } else if str_eq(command, "compen") {
            switch_response("Compaction set to: ", "compaction_enabled", switch_of(params, "switchon", "enabled"))
        } else if str_eq(command, "merge") {
            switch_response("Merge set to: ", "merge_enabled", switch_of(params, "switchon", "enabled"))
        } else if str_eq(command, "downsample_in_order") {
            switch_response("Downsample in order set to: ", "downsample_in_order", switch_of(params, "order", "order"))
        } else {
            let mut m = "Unknown command: ".to_owned();
            push_str(&mut m, command);
            ControlResponse { success: false, message: m, data: None }
        }
    }

    /// Whether writes are allowed: not disabled, and not read-only.
    pub fn is_write_enabled(&self) -> (r: bool)
        ensures
            r == (!self.write_disabled && !self.readonly_mode),
    {
        !self.write_disabled && !self.readonly_mode
    }

    /// Whether reads are allowed: not disabled, and not read-only.
    pub fn is_read_enabled(&self) -> (r: bool)
        ensures
            r == (!self.read_disabled && !self.readonly_mode),
    {
        !self.read_disabled && !self.readonly_mode
    }

    /// Whether compaction is on.
    pub fn is_compaction_enabled(&self) -> (r: bool)
        ensures
            r == self.compaction_enabled,
    {
        self.compaction_enabled
    }

    /// Whether merging is on.
    pub fn is_merge_enabled(&self) -> (r: bool)
        ensures
            r == self.merge_enabled,
    {
        self.merge_enabled
    }
}

} // verus!
