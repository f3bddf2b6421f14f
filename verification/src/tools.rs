//! The tool layer: stored scripts, their validation, and the decisions taken
//! for each tool call.

use vstd::prelude::*;
use vstd::string::StringExecFns;
use crate::error::{McpError, ScriptError, TerminalMcpError, concat2, concat3, invalid_params};
use crate::json::{JsonValue, JsonNumber, lemma_entry_lookup, str_field, bool_field, u64_field, field, entry_lookup, get_str, get_bool, get_field, get_u64, get_string_items, string_array_field};
use crate::execute::{ExecuteResult, ExecuteMode, ExecutionRequest, ModeView, RequestView};
use crate::text::{
    is_ascii_alpha,
    is_ascii_alnum,
    is_whitespace,
    ascii_alpha,
    ascii_alnum,
    whitespace,
    str_eq,
    strip_prefix,
    push_char,
    chars_of,
    string_of,
    join_seqs,
    join_strings,
};

verus! {

/// Names of the built-in tools.
pub open spec fn is_builtin_tool(n: Seq<char>) -> bool {
    ||| n == "terminal_execute"@
    ||| n == "terminal_store_script"@
    ||| n == "terminal_remove_script"@
    ||| n == "terminal_list_scripts"@
}

/// Whether `n` is one of the built-in tool names.
pub fn builtin_tool(n: &str) -> (b: bool)
    ensures
        b == is_builtin_tool(n@),
{
    str_eq(n, "terminal_execute") || str_eq(n, "terminal_store_script") || str_eq(
        n,
        "terminal_remove_script",
    ) || str_eq(n, "terminal_list_scripts")
}

/// A character allowed in script names and in the tail of parameter names.
pub open spec fn is_name_char(c: char) -> bool {
    is_ascii_alnum(c) || c == '_'
}

/// Why a script name is refused, if it is.
pub open spec fn script_name_problem(n: Seq<char>) -> Option<Seq<char>> {
    if n.len() == 0 {
        Some("Name cannot be empty"@)
    } else if !(forall|i: int| 0 <= i < n.len() ==> is_name_char(#[trigger] n[i])) {
        Some("Name must be alphanumeric/underscore only, got: '"@ + n + "'"@)
    } else if is_builtin_tool("script_"@ + n) || is_builtin_tool(n) {
        Some("Name '"@ + n + "' conflicts with a built-in tool"@)
    } else {
        None
    }
}

/// A script name is accepted when it is a non-empty run of ASCII letters,
/// digits and underscores that does not clash with a built-in tool.
pub fn validate_script_name(name: &str) -> (res: Result<(), TerminalMcpError>)
    ensures
        match res {
            Ok(()) => script_name_problem(name@) is None,
            Err(TerminalMcpError::Script(ScriptError::InvalidName(m))) => script_name_problem(name@)
                == Some(m@),
            _ => false,
        },
{
    if name.is_empty() {
        return Err(
            TerminalMcpError::Script(ScriptError::InvalidName(String::from_str("Name cannot be empty"))),
        );
    }
    let mut all_ok = true;
    for c in iter: name.chars()
        invariant
            iter.seq() == name@,
            all_ok == (forall|i: int| 0 <= i < iter.index() ==> is_name_char(#[trigger] name@[i])),
    {
        if !(ascii_alnum(c) || c == '_') {
            all_ok = false;
        }
    }
    if !all_ok {
        return Err(
            TerminalMcpError::Script(
                ScriptError::InvalidName(
                    concat3("Name must be alphanumeric/underscore only, got: '", name, "'"),
                ),
            ),
        );
    }
    let tool_name = concat2("script_", name);
    if builtin_tool(tool_name.as_str()) || builtin_tool(name) {
        return Err(
            TerminalMcpError::Script(
                ScriptError::InvalidName(concat3("Name '", name, "' conflicts with a built-in tool")),
            ),
        );
    }
    Ok(())
}

/// Environment variables that script parameters may never set.
pub open spec fn is_forbidden_env_name(n: Seq<char>) -> bool {
    ||| n == "LD_PRELOAD"@
    ||| n == "LD_LIBRARY_PATH"@
    ||| n == "BASH_ENV"@
    ||| n == "IFS"@
    ||| n == "CDPATH"@
}

/// `[A-Za-z_][A-Za-z0-9_]*`.
pub open spec fn is_identifier(n: Seq<char>) -> bool {
    &&& n.len() > 0
    &&& (is_ascii_alpha(n[0]) || n[0] == '_')
    &&& forall|i: int| 1 <= i < n.len() ==> is_name_char(#[trigger] n[i])
}

/// Why a parameter name is refused, if it is.
pub open spec fn param_name_problem(n: Seq<char>) -> Option<Seq<char>> {
    if !is_identifier(n) {
        Some("Invalid parameter name '"@ + n + "': must match [A-Za-z_][A-Za-z0-9_]*"@)
    } else if is_forbidden_env_name(n) {
        Some("Parameter name '"@ + n + "' is not allowed (injection-enabling environment variable)"@)
    } else {
        None
    }
}

/// A parameter name must be a shell identifier and must not be one of the
/// environment variables that alter dynamic linking or shell start-up.
pub fn validate_param_name(name: &str) -> (res: Result<(), TerminalMcpError>)
    ensures
        match res {
            Ok(()) => param_name_problem(name@) is None,
            Err(TerminalMcpError::Mcp(McpError::InvalidToolParameters(m))) => param_name_problem(
                name@,
            ) == Some(m@),
            _ => false,
        },
{
    let mut valid = true;
    let mut first = true;
    for c in iter: name.chars()
        invariant
            iter.seq() == name@,
            first == (iter.index() == 0),
            iter.index() > 0 ==> (valid == ((is_ascii_alpha(name@[0]) || name@[0] == '_') && (
            forall|i: int| 1 <= i < iter.index() ==> is_name_char(#[trigger] name@[i])))),
    {
        if first {
            valid = ascii_alpha(c) || c == '_';
            first = false;
        } else if !(ascii_alnum(c) || c == '_') {
            valid = false;
        }
    }
    if first {
        valid = false;
    }
    if !valid {
        return Err(
            invalid_params(
                concat3("Invalid parameter name '", name, "': must match [A-Za-z_][A-Za-z0-9_]*"),
            ),
        );
    }
    if str_eq(name, "LD_PRELOAD") || str_eq(name, "LD_LIBRARY_PATH") || str_eq(name, "BASH_ENV")
        || str_eq(name, "IFS") || str_eq(name, "CDPATH") {
        return Err(
            invalid_params(
                concat3(
                    "Parameter name '",
                    name,
                    "' is not allowed (injection-enabling environment variable)",
                ),
            ),
        );
    }
    Ok(())
}

/// A parameter of a stored script, passed to it as an environment variable.
#[derive(Debug, Clone)]
pub struct ScriptParameter {
    pub name: String,
    pub description: String,
    pub required: bool,
}

/// Why one entry of a `parameters` array is refused, if it is.
pub open spec fn param_item_problem(item: JsonValue) -> Option<Seq<char>> {
    match str_field(item, "name"@) {
        None => Some("Each parameter must have a 'name' string"@),
        Some(n) => param_name_problem(n),
    }
}

/// The first refusal among the entries of a `parameters` array.
pub open spec fn first_param_problem(items: Seq<JsonValue>) -> Option<Seq<char>>
    decreases items.len(),
{
    if items.len() == 0 {
        None
    } else {
        match param_item_problem(items[0]) {
            Some(m) => Some(m),
            None => first_param_problem(items.drop_first()),
        }
    }
}

/// `p` is the parameter that `item` declares: its name, its description
/// (empty when absent) and whether it is required (false when absent).
pub open spec fn param_declared_by(p: ScriptParameter, item: JsonValue) -> bool {
    &&& str_field(item, "name"@) == Some(p.name@)
    &&& p.description@ == match str_field(item, "description"@) {
        Some(d) => d,
        None => Seq::empty(),
    }
    &&& p.required == match bool_field(item, "required"@) {
        Some(b) => b,
        None => false,
    }
}

proof fn lemma_first_param_problem_prefix(items: Seq<JsonValue>, i: int)
    requires
        0 <= i < items.len(),
        forall|j: int| 0 <= j < i ==> param_item_problem(#[trigger] items[j]) is None,
    ensures
        first_param_problem(items) == first_param_problem(items.skip(i)),
    decreases i,
{
    if i > 0 {
        assert(param_item_problem(items[0]) is None);
        assert forall|j: int| 0 <= j < i - 1 implies param_item_problem(#[trigger] items.drop_first()[j]) is None by {
            assert(items.drop_first()[j] == items[j + 1]);
        }
        lemma_first_param_problem_prefix(items.drop_first(), i - 1);
        assert(items.drop_first().skip(i - 1) =~= items.skip(i));
    } else {
        assert(items.skip(0) =~= items);
    }
}

proof fn lemma_first_param_problem_none(items: Seq<JsonValue>)
    requires
        forall|j: int| 0 <= j < items.len() ==> param_item_problem(#[trigger] items[j]) is None,
    ensures
        first_param_problem(items) is None,
    decreases items.len(),
{
    if items.len() > 0 {
        assert(param_item_problem(items[0]) is None);
        assert forall|j: int| 0 <= j < items.len() - 1 implies param_item_problem(#[trigger] items.drop_first()[j]) is None by {
            assert(items.drop_first()[j] == items[j + 1]);
        }
        lemma_first_param_problem_none(items.drop_first());
    }
}

/// Reads the optional `parameters` array of a script definition. A missing
/// or non-array value declares no parameters; otherwise every entry must
/// carry a valid `name` string.
pub fn parse_script_parameters(val: Option<&JsonValue>) -> (res: Result<Vec<ScriptParameter>, TerminalMcpError>)
    ensures
        match val {
            Some(JsonValue::Array(items)) => match res {
                Ok(ps) => {
                    &&& first_param_problem(items@) is None
                    &&& ps@.len() == items@.len()
                    &&& forall|i: int| 0 <= i < ps@.len() ==> param_declared_by(#[trigger] ps@[i], items@[i])
                },
                Err(TerminalMcpError::Mcp(McpError::InvalidToolParameters(m))) => first_param_problem(
                    items@,
                ) == Some(m@),
                _ => false,
            },
            _ => res matches Ok(ps) && ps@.len() == 0,
        },
{
    let items = match val {
        Some(JsonValue::Array(items)) => items,
        _ => {
            return Ok(Vec::new());
        },
    };
    let mut params: Vec<ScriptParameter> = Vec::new();
    let mut i: usize = 0;
    while i < items.len()
        invariant
            i <= items@.len(),
            val is Some && *val.unwrap() == JsonValue::Array(*items),
            params@.len() == i,
            forall|j: int| 0 <= j < i ==> param_item_problem(#[trigger] items@[j]) is None,
            forall|j: int| 0 <= j < i ==> param_declared_by(#[trigger] params@[j], items@[j]),
        decreases items@.len() - i,
    {
        let item = &items[i];
        let name = match get_str(item, "name") {
            Some(n) => n,
            None => {
                proof {
                    lemma_first_param_problem_prefix(items@, i as int);
                    assert(items@.skip(i as int)[0] == items@[i as int]);
                    assert(param_item_problem(items@[i as int]) == Some("Each parameter must have a 'name' string"@));
                }
                return Err(invalid_params(String::from_str("Each parameter must have a 'name' string")));
            },
        };
        match validate_param_name(name) {
            Ok(()) => {},
            Err(e) => {
                proof {
                    lemma_first_param_problem_prefix(items@, i as int);
                    assert(items@.skip(i as int)[0] == items@[i as int]);
                    assert(str_field(items@[i as int], "name"@) == Some(name@));
                }
                return Err(e);
            },
        }
        let description = match get_str(item, "description") {
            Some(d) => String::from_str(d),
            None => String::new(),
        };
        let required = match get_bool(item, "required") {
            Some(b) => b,
            None => false,
        };
        params.push(ScriptParameter { name: String::from_str(name), description, required });
        i = i + 1;
    }
    proof {
        lemma_first_param_problem_none(items@);
    }
    Ok(params)
}

/// The whitespace-separated words of `s`, in order.
pub open spec fn words(s: Seq<char>) -> Seq<Seq<char>>
    decreases s.len(),
{
    if s.len() == 0 {
        Seq::empty()
    } else if is_whitespace(s.last()) {
        words(s.drop_last())
    } else if s.len() == 1 || is_whitespace(s[s.len() - 2]) {
        words(s.drop_last()).push(seq![s.last()])
    } else {
        let w = words(s.drop_last());
        w.update(w.len() - 1, w.last().push(s.last()))
    }
}

/// Longest preview of a script body, in characters, before `…` is added.
pub open spec fn preview_limit() -> nat {
    80
}

/// A single-line preview of a script: its words separated by single spaces,
/// cut to 80 characters and marked with `…` when longer.
pub open spec fn preview_of(script: Seq<char>) -> Seq<char> {
    let collapsed = join_seqs(words(script), seq![' ']);
    if collapsed.len() > preview_limit() {
        collapsed.take(preview_limit() as int).push('\u{2026}')
    } else {
        collapsed
    }
}

/// Builds a short, single-line preview of a stored script body for
/// listings: internal whitespace collapsed, at most 80 characters plus `…`.
pub fn script_preview(script: &str) -> (p: String)
    ensures
        p@ == preview_of(script@),
{
    let mut done: Vec<String> = Vec::new();
    let mut cur = String::new();
    let mut in_word = false;
    for c in iter: script.chars()
        invariant
            iter.seq() == script@,
            in_word ==> iter.index() > 0 && !is_whitespace(script@[iter.index() - 1]),
            !in_word ==> iter.index() > 0 ==> is_whitespace(script@[iter.index() - 1]),
            in_word ==> done@.map_values(|w: String| w@).push(cur@) == words(script@.take(iter.index())),
            !in_word ==> done@.map_values(|w: String| w@) == words(script@.take(iter.index())),
    {
        let ghost k = iter.index();
        let ghost pre = script@.take(k);
        let ghost views = done@.map_values(|w: String| w@);
        let ghost cur_before = cur@;
        proof {
            assert(script@.take(k + 1).drop_last() =~= pre);
            assert(script@.take(k + 1).last() == c);
            if k > 0 {
                assert(script@.take(k + 1)[k - 1] == script@[k - 1]);
            }
        }
        if whitespace(c) {
            if in_word {
                done.push(cur);
                cur = String::new();
                in_word = false;
                proof {
                    assert(done@.map_values(|w: String| w@) =~= views.push(cur_before));
                }
            }
        } else if in_word {
            let ghost before = cur@;
            push_char(&mut cur, c);
            proof {
                assert(views.push(before).update(views.len() as int, before.push(c)) =~= views.push(cur@));
            }
        } else {
            cur = String::new();
            push_char(&mut cur, c);
            in_word = true;
            proof {
                assert(cur@ =~= seq![c]);
            }
        }
    }
    let ghost views_end = done@.map_values(|w: String| w@);
    let ghost cur_end = cur@;
    if in_word {
        done.push(cur);
        proof {
            assert(done@.map_values(|w: String| w@) =~= views_end.push(cur_end));
        }
    }
    proof {
        assert(script@.take(script@.len() as int) =~= script@);
        assert(done@.map_values(|w: String| w@) == words(script@));
    }
    let collapsed = join_strings(&done, " ");
    proof {
        reveal_strlit(" ");
        assert(" "@ =~= seq![' ']);
        assert(collapsed@ == join_seqs(words(script@), seq![' ']));
    }
    let chars = chars_of(collapsed.as_str());
    if chars.len() > 80 {
        let mut p = string_of(&chars, 0, 80);
        push_char(&mut p, '\u{2026}');
        proof {
            assert(chars@.subrange(0, 80) =~= collapsed@.take(80));
        }
        p
    } else {
        collapsed
    }
}

/// A stored script that becomes a dynamic tool `script_<name>`.
#[derive(Debug, Clone)]
pub struct StoredScript {
    pub name: String,
    pub description: String,
    pub script: String,
    pub parameters: Vec<ScriptParameter>,
}

/// The scripts of a listing, keyed by name; a later entry of a name wins.
pub open spec fn scripts_by_name(s: Seq<StoredScript>) -> Map<Seq<char>, StoredScript>
    decreases s.len(),
{
    if s.len() == 0 {
        Map::empty()
    } else {
        scripts_by_name(s.drop_last()).insert(s.last().name@, s.last())
    }
}

/// No two entries share a name.
pub open spec fn names_unique(s: Seq<StoredScript>) -> bool {
    forall|i: int, j: int|
        0 <= i < s.len() && 0 <= j < s.len() && i != j ==> #[trigger] s[i].name@ != #[trigger] s[j].name@
}

/// For a listing with unique names, the map holds exactly the listed names,
/// each bound to its entry.
pub proof fn lemma_scripts_by_name(s: Seq<StoredScript>)
    requires
        names_unique(s),
    ensures
        forall|k: Seq<char>|
            #[trigger] scripts_by_name(s).dom().contains(k) <==> exists|i: int|
                0 <= i < s.len() && s[i].name@ == k,
        forall|i: int| 0 <= i < s.len() ==> #[trigger] scripts_by_name(s)[s[i].name@] == s[i],
    decreases s.len(),
{
    if s.len() > 0 {
        let p = s.drop_last();
        assert(names_unique(p));
        lemma_scripts_by_name(p);
        assert forall|k: Seq<char>|
            #[trigger] scripts_by_name(s).dom().contains(k) <==> exists|i: int|
                0 <= i < s.len() && s[i].name@ == k by {
            if scripts_by_name(s).dom().contains(k) && k != s.last().name@ {
                assert(scripts_by_name(p).dom().contains(k));
                let i = choose|i: int| 0 <= i < p.len() && p[i].name@ == k;
                assert(s[i].name@ == k);
            }
            if exists|i: int| 0 <= i < s.len() && s[i].name@ == k {
                let i = choose|i: int| 0 <= i < s.len() && s[i].name@ == k;
                if i < s.len() - 1 {
                    assert(p[i].name@ == k);
                    assert(scripts_by_name(p).dom().contains(k));
                }
            }
        }
        assert forall|i: int| 0 <= i < s.len() implies #[trigger] scripts_by_name(s)[s[i].name@] == s[i] by {
            if i < s.len() - 1 {
                assert(p[i] == s[i]);
                assert(s[i].name@ != s[s.len() - 1].name@);
                assert(scripts_by_name(p)[p[i].name@] == p[i]);
            } else {
                assert(s[i] == s.last());
            }
        }
    }
}

/// Storing a script named `n` into the listing `before` gives `after`: the
/// script of that name is replaced in place, or a new one is appended.
pub open spec fn stored_into_listing(before: Seq<StoredScript>, after: Seq<StoredScript>, n: Seq<char>) -> bool {
    ||| exists|i: int|
        0 <= i < before.len() && before[i].name@ == n && after[i].name@ == n && #[trigger] before.update(
            i,
            after[i],
        ) == after
    ||| {
        &&& forall|i: int| 0 <= i < before.len() ==> (#[trigger] before[i]).name@ != n
        &&& after.len() == before.len() + 1
        &&& after.drop_last() == before
        &&& after.last().name@ == n
    }
}

/// Removing the script named `n` from the listing `before` gives `after`.
pub open spec fn removed_from_listing(before: Seq<StoredScript>, after: Seq<StoredScript>, n: Seq<char>) -> bool {
    exists|i: int| 0 <= i < before.len() && before[i].name@ == n && #[trigger] before.remove(i) == after
}

/// The in-memory store of scripts, in the order they were first stored.
pub struct ScriptStore {
    scripts: Vec<StoredScript>,
}

impl View for ScriptStore {
    type V = Map<Seq<char>, StoredScript>;

    closed spec fn view(&self) -> Map<Seq<char>, StoredScript> {
        scripts_by_name(self.scripts@)
    }
}

impl ScriptStore {
    /// The stored scripts in listing order.
    pub closed spec fn listing(&self) -> Seq<StoredScript> {
        self.scripts@
    }

    /// No two stored scripts share a name.
    pub closed spec fn wf(&self) -> bool {
        names_unique(self.scripts@)
    }

    /// The listing holds each stored script exactly once.
    pub proof fn lemma_listing(&self)
        requires
            self.wf(),
        ensures
            names_unique(self.listing()),
            self@ == scripts_by_name(self.listing()),
            forall|k: Seq<char>|
                #[trigger] self@.dom().contains(k) <==> exists|i: int|
                    0 <= i < self.listing().len() && self.listing()[i].name@ == k,
            forall|i: int|
                0 <= i < self.listing().len() ==> #[trigger] self@[self.listing()[i].name@]
                    == self.listing()[i],
    {
        lemma_scripts_by_name(self.scripts@);
    }

    /// An empty store.
    pub fn new() -> (s: Self)
        ensures
            s.wf(),
            s@ == Map::<Seq<char>, StoredScript>::empty(),
            s.listing().len() == 0,
    {
        ScriptStore { scripts: Vec::new() }
    }

    fn position(&self, name: &str) -> (r: Option<usize>)
        requires
            self.wf(),
        ensures
            match r {
                Some(i) => i < self.scripts@.len() && self.scripts@[i as int].name@ == name@,
                None => forall|i: int| 0 <= i < self.scripts@.len() ==> self.scripts@[i].name@ != name@,
            },
    {
        let key = String::from_str(name);
        let mut i: usize = 0;
        while i < self.scripts.len()
            invariant
                i <= self.scripts@.len(),
                key@ == name@,
                forall|j: int| 0 <= j < i ==> self.scripts@[j].name@ != name@,
            decreases self.scripts@.len() - i,
        {
            if self.scripts[i].name == key {
                return Some(i);
            }
            i = i + 1;
        }
        None
    }

    /// The stored script named `name`, if any.
    pub fn get(&self, name: &str) -> (r: Option<&StoredScript>)
        requires
            self.wf(),
        ensures
            match r {
                Some(s) => self@.dom().contains(name@) && self@[name@] == *s,
                None => !self@.dom().contains(name@),
            },
    {
        proof {
            lemma_scripts_by_name(self.scripts@);
        }
        match self.position(name) {
            Some(i) => Some(&self.scripts[i]),
            None => None,
        }
    }

    /// Stores `script` under its name, replacing a script of the same name.
    /// Returns whether a script was replaced.
    pub fn insert(&mut self, script: StoredScript) -> (replaced: bool)
        requires
            old(self).wf(),
        ensures
            final(self).wf(),
            final(self)@ == old(self)@.insert(script.name@, script),
            replaced == old(self)@.dom().contains(script.name@),
            stored_into_listing(old(self).listing(), final(self).listing(), script.name@),
    {
        proof {
            lemma_scripts_by_name(self.scripts@);
        }
        let ghost old_s = self.scripts@;
        let ghost name = script.name@;
        let pos = self.position(script.name.as_str());
        match pos {
            Some(i) => {
                self.scripts.set(i, script);
                proof {
                    let n = self.scripts@;
                    assert(names_unique(n));
                    lemma_scripts_by_name(n);
                    assert forall|k: Seq<char>| #[trigger] scripts_by_name(n).dom().contains(k) <==> old(self)@.insert(name, n[i as int]).dom().contains(k) by {
                        if exists|j: int| 0 <= j < n.len() && n[j].name@ == k {
                            let j = choose|j: int| 0 <= j < n.len() && n[j].name@ == k;
                            if j != i {
                                assert(old_s[j].name@ == k);
                            }
                        }
                        if old(self)@.dom().contains(k) && k != name {
                            let j = choose|j: int| 0 <= j < old_s.len() && old_s[j].name@ == k;
                            assert(n[j].name@ == k);
                        }
                    }
                    assert forall|k: Seq<char>| #[trigger] scripts_by_name(n).dom().contains(k) implies scripts_by_name(n)[k] == old(self)@.insert(name, n[i as int])[k] by {
                        let j = choose|j: int| 0 <= j < n.len() && n[j].name@ == k;
                        if j != i {
                            assert(old_s[j] == n[j]);
                        }
                    }
                    assert(scripts_by_name(n) =~= old(self)@.insert(name, n[i as int]));
                    assert(old_s.update(i as int, n[i as int]) =~= n);
                }
                true
            },
            None => {
                self.scripts.push(script);
                proof {
                    let n = self.scripts@;
                    assert(n.drop_last() =~= old_s);
                    assert(names_unique(n));
                }
                false
            },
        }
    }

    /// Removes the script named `name`. Returns whether one was stored.
    pub fn remove(&mut self, name: &str) -> (removed: bool)
        requires
            old(self).wf(),
        ensures
            final(self).wf(),
            final(self)@ == old(self)@.remove(name@),
            removed == old(self)@.dom().contains(name@),
            if removed {
                removed_from_listing(old(self).listing(), final(self).listing(), name@)
            } else {
                final(self).listing() == old(self).listing()
            },
    {
        proof {
            lemma_scripts_by_name(self.scripts@);
        }
        let ghost old_s = self.scripts@;
        match self.position(name) {
            Some(i) => {
                self.scripts.remove(i);
                proof {
                    let n = self.scripts@;
                    assert(n =~= old_s.remove(i as int));
                    assert(names_unique(n));
                    lemma_scripts_by_name(n);
                    assert forall|k: Seq<char>| #[trigger] scripts_by_name(n).dom().contains(k) <==> old(self)@.remove(name@).dom().contains(k) by {
                        if exists|j: int| 0 <= j < n.len() && n[j].name@ == k {
                            let j = choose|j: int| 0 <= j < n.len() && n[j].name@ == k;
                            if j < i {
                                assert(old_s[j].name@ == k);
                            } else {
                                assert(old_s[j + 1].name@ == k);
                            }
                        }
                        if old(self)@.dom().contains(k) && k != name@ {
                            let j = choose|j: int| 0 <= j < old_s.len() && old_s[j].name@ == k;
                            if j < i {
                                assert(n[j].name@ == k);
                            } else {
                                assert(n[j - 1].name@ == k);
                            }
                        }
                    }
                    assert forall|k: Seq<char>| #[trigger] scripts_by_name(n).dom().contains(k) implies scripts_by_name(n)[k] == old(self)@.remove(name@)[k] by {
                        let j = choose|j: int| 0 <= j < n.len() && n[j].name@ == k;
                        if j < i {
                            assert(old_s[j] == n[j]);
                        } else {
                            assert(old_s[j + 1] == n[j]);
                        }
                    }
                    assert(scripts_by_name(n) =~= old(self)@.remove(name@));
                }
                true
            },
            None => {
                proof {
                    assert(old(self)@.remove(name@) =~= old(self)@);
                }
                false
            },
        }
    }

    /// The stored scripts in listing order.
    pub fn scripts(&self) -> (v: &Vec<StoredScript>)
        ensures
            v@ == self.listing(),
    {
        &self.scripts
    }
}

/// The body of a tool reply: plain text, or a JSON payload.
#[derive(Debug)]
pub enum ToolReply {
    Text(String),
    Json(JsonValue),
}

/// The outcome of a tool invocation: the reply plus whether the set of tools
/// changed (so that clients can be told to list the tools again).
#[derive(Debug)]
pub struct ToolOutcome {
    pub reply: ToolReply,
    pub tools_changed: bool,
}

/// An execution the caller must perform; `command_desc` names it in the
/// audit log.
#[derive(Debug, Clone)]
pub struct PendingExecution {
    pub request: ExecutionRequest,
    pub command_desc: String,
}

/// What a tool call leads to: a finished reply, or an execution to run whose
/// result [`execution_result_reply`] turns into the reply.
#[derive(Debug)]
pub enum ToolStep {
    Reply(ToolOutcome),
    Run(PendingExecution),
}

/// The member names of an object, in order (empty for a non-object).
pub open spec fn object_keys(v: JsonValue) -> Seq<Seq<char>> {
    match v {
        JsonValue::Object(entries) => entries@.map_values(|e: (String, JsonValue)| e.0@),
        _ => Seq::empty(),
    }
}

/// The JSON number of a 32-bit integer.
pub open spec fn i32_number(c: i32) -> JsonNumber {
    if c >= 0 {
        JsonNumber::PosInt(c as u64)
    } else {
        JsonNumber::NegInt(c as i64)
    }
}

/// `v` is the execution payload of `r`: exit code, both output streams,
/// the timeout and truncation flags, then the pid of a detached process and
/// the audit log file when there are any.
pub open spec fn execution_payload(v: JsonValue, r: ExecuteResult, audit_log_file: Option<Seq<char>>) -> bool {
    &&& object_keys(v) == seq![
        "exit_code"@,
        "stdout"@,
        "stderr"@,
        "timed_out"@,
        "stdout_truncated"@,
        "stderr_truncated"@,
    ] + (if r.detached_pid is Some {
        seq!["detached_pid"@]
    } else {
        Seq::empty()
    }) + (if audit_log_file is Some {
        seq!["audit_log_file"@]
    } else {
        Seq::empty()
    })
    &&& field(v, "exit_code"@) == Some(JsonValue::Number(i32_number(r.exit_code)))
    &&& str_field(v, "stdout"@) == Some(r.stdout@)
    &&& str_field(v, "stderr"@) == Some(r.stderr@)
    &&& bool_field(v, "timed_out"@) == Some(r.timed_out)
    &&& bool_field(v, "stdout_truncated"@) == Some(r.stdout_truncated)
    &&& bool_field(v, "stderr_truncated"@) == Some(r.stderr_truncated)
    &&& match r.detached_pid {
        Some(pid) => u64_field(v, "detached_pid"@) == Some(pid as u64),
        None => field(v, "detached_pid"@) is None,
    }
    &&& match audit_log_file {
        Some(f) => str_field(v, "audit_log_file"@) == Some(f),
        None => field(v, "audit_log_file"@) is None,
    }
}

fn i32_json(c: i32) -> (v: JsonValue)
    ensures
        v == JsonValue::Number(i32_number(c)),
{
    if c >= 0 {
        JsonValue::Number(JsonNumber::PosInt(c as u64))
    } else {
        JsonValue::Number(JsonNumber::NegInt(c as i64))
    }
}

fn push_member(entries: &mut Vec<(String, JsonValue)>, key: &str, v: JsonValue)
    ensures
        final(entries)@.len() == old(entries)@.len() + 1,
        forall|i: int| 0 <= i < old(entries)@.len() ==> #[trigger] final(entries)@[i] == old(entries)@[i],
        final(entries)@.last().0@ == key@,
        final(entries)@.last().1 == v,
{
    entries.push((String::from_str(key), v));
}

/// The member names of an execution payload are pairwise distinct.
proof fn lemma_payload_keys()
    ensures
        "stdout"@ != "exit_code"@,
        "stderr"@ != "exit_code"@,
        "stderr"@ != "stdout"@,
        "timed_out"@ != "exit_code"@,
        "timed_out"@ != "stdout"@,
        "timed_out"@ != "stderr"@,
        "stdout_truncated"@ != "exit_code"@,
        "stdout_truncated"@ != "stdout"@,
        "stdout_truncated"@ != "stderr"@,
        "stdout_truncated"@ != "timed_out"@,
        "stderr_truncated"@ != "exit_code"@,
        "stderr_truncated"@ != "stdout"@,
        "stderr_truncated"@ != "stderr"@,
        "stderr_truncated"@ != "timed_out"@,
        "stderr_truncated"@ != "stdout_truncated"@,
        "detached_pid"@ != "exit_code"@,
        "detached_pid"@ != "stdout"@,
        "detached_pid"@ != "stderr"@,
        "detached_pid"@ != "timed_out"@,
        "detached_pid"@ != "stdout_truncated"@,
        "detached_pid"@ != "stderr_truncated"@,
        "audit_log_file"@ != "exit_code"@,
        "audit_log_file"@ != "stdout"@,
        "audit_log_file"@ != "stderr"@,
        "audit_log_file"@ != "timed_out"@,
        "audit_log_file"@ != "stdout_truncated"@,
        "audit_log_file"@ != "stderr_truncated"@,
        "audit_log_file"@ != "detached_pid"@,
{
    reveal_strlit("exit_code");
    reveal_strlit("stdout");
    reveal_strlit("stderr");
    reveal_strlit("timed_out");
    reveal_strlit("stdout_truncated");
    reveal_strlit("stderr_truncated");
    reveal_strlit("detached_pid");
    reveal_strlit("audit_log_file");
    assert("exit_code"@.len() == 9 && "stdout"@.len() == 6 && "stderr"@.len() == 6 && "timed_out"@.len() == 9);
    assert("stdout_truncated"@.len() == 16 && "stderr_truncated"@.len() == 16);
    assert("detached_pid"@.len() == 12 && "audit_log_file"@.len() == 14);
    assert("timed_out"@[0] != "exit_code"@[0]);
    assert("stderr"@[3] != "stdout"@[3]);
    assert("stderr_truncated"@[3] != "stdout_truncated"@[3]);
}

/// Builds the JSON reply of an execution, with the audit log file name when
/// the execution was logged.
pub fn execution_result_reply(result: &ExecuteResult, audit_log_file: Option<&str>) -> (o: ToolOutcome)
    ensures
        !o.tools_changed,
        match o.reply {
            ToolReply::Json(v) => execution_payload(
                v,
                *result,
                match audit_log_file {
                    Some(f) => Some(f@),
                    None => None,
                },
            ),
            ToolReply::Text(_) => false,
        },
{
    let mut e: Vec<(String, JsonValue)> = vec![
        (String::from_str("exit_code"), i32_json(result.exit_code)),
        (String::from_str("stdout"), JsonValue::Str(result.stdout.clone())),
        (String::from_str("stderr"), JsonValue::Str(result.stderr.clone())),
        (String::from_str("timed_out"), JsonValue::Bool(result.timed_out)),
        (String::from_str("stdout_truncated"), JsonValue::Bool(result.stdout_truncated)),
        (String::from_str("stderr_truncated"), JsonValue::Bool(result.stderr_truncated)),
    ];
    let ghost base = e@;
    match result.detached_pid {
        Some(pid) => push_member(&mut e, "detached_pid", JsonValue::Number(JsonNumber::PosInt(pid as u64))),
        None => {},
    }
    let ghost with_pid = e@;
    match audit_log_file {
        Some(f) => push_member(&mut e, "audit_log_file", JsonValue::Str(String::from_str(f))),
        None => {},
    }
    proof {
        reveal_strlit("exit_code");
        reveal_strlit("stdout");
        reveal_strlit("stderr");
        reveal_strlit("timed_out");
        reveal_strlit("stdout_truncated");
        reveal_strlit("stderr_truncated");
        reveal_strlit("detached_pid");
        reveal_strlit("audit_log_file");
        let v = JsonValue::Object(e);
        let es = e@;
        assert(es[0].0@ == "exit_code"@);
        assert(es[1].0@ == "stdout"@);
        assert(es[2].0@ == "stderr"@);
        assert(es[3].0@ == "timed_out"@);
        assert(es[4].0@ == "stdout_truncated"@);
        assert(es[5].0@ == "stderr_truncated"@);
        lemma_payload_keys();
        lemma_entry_lookup(es, "exit_code"@, 0);
        lemma_entry_lookup(es, "stdout"@, 1);
        lemma_entry_lookup(es, "stderr"@, 2);
        lemma_entry_lookup(es, "timed_out"@, 3);
        lemma_entry_lookup(es, "stdout_truncated"@, 4);
        lemma_entry_lookup(es, "stderr_truncated"@, 5);
        if result.detached_pid is Some {
            lemma_entry_lookup(es, "detached_pid"@, 6);
            if audit_log_file is Some {
                lemma_entry_lookup(es, "audit_log_file"@, 7);
            } else {
                lemma_entry_lookup(es, "audit_log_file"@, 7);
            }
        } else {
            lemma_entry_lookup(es, "detached_pid"@, es.len() as int);
            lemma_entry_lookup(es, "audit_log_file"@, 6);
        }
        assert(object_keys(v) =~= seq![
            "exit_code"@,
            "stdout"@,
            "stderr"@,
            "timed_out"@,
            "stdout_truncated"@,
            "stderr_truncated"@,
        ] + (if result.detached_pid is Some {
            seq!["detached_pid"@]
        } else {
            Seq::empty()
        }) + (if audit_log_file is Some {
            seq!["audit_log_file"@]
        } else {
            Seq::empty()
        }));
    }
    ToolOutcome { reply: ToolReply::Json(JsonValue::Object(e)), tools_changed: false }
}

/// Why a tool call is refused, by error kind and message.
pub enum Refusal {
    InvalidParams(Seq<char>),
    InvalidName(Seq<char>),
    ScriptNotFound(Seq<char>),
    ToolNotFound(Seq<char>),
}

/// `e` is the error that `r` describes.
pub open spec fn refused_with(e: TerminalMcpError, r: Refusal) -> bool {
    match r {
        Refusal::InvalidParams(m) => match e {
            TerminalMcpError::Mcp(McpError::InvalidToolParameters(x)) => x@ == m,
            _ => false,
        },
        Refusal::InvalidName(m) => match e {
            TerminalMcpError::Script(ScriptError::InvalidName(x)) => x@ == m,
            _ => false,
        },
        Refusal::ScriptNotFound(m) => match e {
            TerminalMcpError::Script(ScriptError::NotFound(x)) => x@ == m,
            _ => false,
        },
        Refusal::ToolNotFound(m) => match e {
            TerminalMcpError::Mcp(McpError::ToolNotFound(x)) => x@ == m,
            _ => false,
        },
    }
}

/// The `max_lines` argument as a line count.
pub open spec fn max_lines_arg(args: JsonValue) -> Option<usize> {
    match u64_field(args, "max_lines"@) {
        Some(v) => Some(v as usize),
        None => None,
    }
}

/// The `detach` argument (false when absent).
pub open spec fn detach_arg(args: JsonValue) -> bool {
    match bool_field(args, "detach"@) {
        Some(b) => b,
        None => false,
    }
}

/// How a command execution is named in the audit log.
pub open spec fn command_desc(command: Seq<char>, args: Option<Seq<Seq<char>>>) -> Seq<char> {
    match args {
        Some(v) => if v.len() > 0 {
            command + seq![' '] + join_seqs(v, seq![' '])
        } else {
            command
        },
        None => command,
    }
}

/// How a script execution is named in the audit log.
pub open spec fn script_desc(args: Option<Seq<Seq<char>>>) -> Seq<char> {
    match args {
        Some(v) => if v.len() > 0 {
            "script args=["@ + join_seqs(v, seq![' ']) + "]"@
        } else {
            "script"@
        },
        None => "script"@,
    }
}

/// What `terminal_execute` does with its arguments: the execution it asks
/// for and its audit name, or why it refuses.
pub open spec fn terminal_execute_plan(args: JsonValue) -> Result<(RequestView, Seq<char>), Refusal> {
    let script = str_field(args, "script"@);
    let stdin_input = str_field(args, "stdin"@);
    let list = string_array_field(args, "args"@);
    if script is Some && stdin_input is Some {
        Err(Refusal::InvalidParams("Cannot provide both 'script' and 'stdin' parameters"@))
    } else if script is Some && str_field(args, "command"@) is Some {
        Err(Refusal::InvalidParams("Cannot provide both 'command' and 'script' parameters"@))
    } else {
        match script {
            Some(body) => Ok(
                (
                    RequestView {
                        mode: ModeView::Script { script: body, script_args: list, env_vars: None },
                        cwd: str_field(args, "cwd"@),
                        timeout_secs: u64_field(args, "timeout_secs"@),
                        inactivity_timeout_secs: u64_field(args, "inactivity_timeout_secs"@),
                        max_lines: max_lines_arg(args),
                        detach: detach_arg(args),
                    },
                    script_desc(list),
                ),
            ),
            None => match str_field(args, "command"@) {
                None => Err(Refusal::InvalidParams("Missing required parameter: command"@)),
                Some(c) => Ok(
                    (
                        RequestView {
                            mode: ModeView::Command { command: c, args: list, stdin_input },
                            cwd: str_field(args, "cwd"@),
                            timeout_secs: u64_field(args, "timeout_secs"@),
                            inactivity_timeout_secs: u64_field(args, "inactivity_timeout_secs"@),
                            max_lines: max_lines_arg(args),
                            detach: detach_arg(args),
                        },
                        command_desc(c, list),
                    ),
                ),
            },
        }
    }
}

/// `res` is the result that `plan` describes for an execution tool.
pub open spec fn execution_outcome(
    plan: Result<(RequestView, Seq<char>), Refusal>,
    res: Result<ToolStep, TerminalMcpError>,
) -> bool {
    match plan {
        Ok((req, desc)) => match res {
            Ok(ToolStep::Run(p)) => p.request@ == req && p.command_desc@ == desc,
            _ => false,
        },
        Err(r) => match res {
            Err(e) => refused_with(e, r),
            _ => false,
        },
    }
}

fn owned(s: Option<&str>) -> (r: Option<String>)
    ensures
        match s {
            Some(x) => r matches Some(y) && y@ == x@,
            None => r is None,
        },
{
    match s {
        Some(x) => Some(String::from_str(x)),
        None => None,
    }
}

fn describe_command(command: &str, args: &Option<Vec<String>>) -> (d: String)
    ensures
        d@ == command_desc(
            command@,
            match args {
                Some(v) => Some(v@.map_values(|x: String| x@)),
                None => None,
            },
        ),
{
    match args {
        Some(v) => if v.len() > 0 {
            let mut d = String::from_str(command);
            push_char(&mut d, ' ');
            let j = join_strings(v, " ");
            proof {
                reveal_strlit(" ");
                assert(" "@ =~= seq![' ']);
            }
            d.append(j.as_str());
            d
        } else {
            String::from_str(command)
        },
        None => String::from_str(command),
    }
}

fn describe_script(args: &Option<Vec<String>>) -> (d: String)
    ensures
        d@ == script_desc(
            match args {
                Some(v) => Some(v@.map_values(|x: String| x@)),
                None => None,
            },
        ),
{
    match args {
        Some(v) => if v.len() > 0 {
            let mut d = String::from_str("script args=[");
            let j = join_strings(v, " ");
            proof {
                reveal_strlit(" ");
                assert(" "@ =~= seq![' ']);
            }
            d.append(j.as_str());
            d.append("]");
            d
        } else {
            String::from_str("script")
        },
        None => String::from_str("script"),
    }
}

/// Reads the arguments of `terminal_execute` and decides what to run.
fn exec_terminal_execute(args: &JsonValue) -> (res: Result<ToolStep, TerminalMcpError>)
    ensures
        execution_outcome(terminal_execute_plan(*args), res),
{
    let script = get_str(args, "script");
    let stdin_input = get_str(args, "stdin");
    if script.is_some() && stdin_input.is_some() {
        return Err(invalid_params(String::from_str("Cannot provide both 'script' and 'stdin' parameters")));
    }
    if script.is_some() && get_str(args, "command").is_some() {
        return Err(invalid_params(String::from_str("Cannot provide both 'command' and 'script' parameters")));
    }
    let cwd = owned(get_str(args, "cwd"));
    let timeout_secs = get_u64(args, "timeout_secs");
    let inactivity_timeout_secs = get_u64(args, "inactivity_timeout_secs");
    let max_lines = match get_u64(args, "max_lines") {
        Some(v) => Some(v as usize),
        None => None,
    };
    let detach = match get_bool(args, "detach") {
        Some(b) => b,
        None => false,
    };
    let cmd_args = get_string_items(args, "args");
    match script {
        Some(body) => {
            let desc = describe_script(&cmd_args);
            let request = ExecutionRequest {
                mode: ExecuteMode::Script {
                    script: String::from_str(body),
                    script_args: cmd_args,
                    env_vars: None,
                },
                cwd,
                timeout_secs,
                inactivity_timeout_secs,
                max_lines,
                detach,
            };
            Ok(ToolStep::Run(PendingExecution { request, command_desc: desc }))
        },
        None => {
            let command = match get_str(args, "command") {
                Some(c) => c,
                None => {
                    return Err(invalid_params(String::from_str("Missing required parameter: command")));
                },
            };
            let desc = describe_command(command, &cmd_args);
            let request = ExecutionRequest {
                mode: ExecuteMode::Command {
                    command: String::from_str(command),
                    args: cmd_args,
                    stdin_input: owned(stdin_input),
                },
                cwd,
                timeout_secs,
                inactivity_timeout_secs,
                max_lines,
                detach,
            };
            Ok(ToolStep::Run(PendingExecution { request, command_desc: desc }))
        },
    }
}

/// The environment a stored script runs with: each declared parameter
/// whose argument is a string, in declaration order; the name of the first
/// required parameter without one makes the call fail.
pub open spec fn dynamic_env(params: Seq<ScriptParameter>, args: JsonValue) -> Result<
    Seq<(Seq<char>, Seq<char>)>,
    Seq<char>,
>
    decreases params.len(),
{
    if params.len() == 0 {
        Ok(Seq::empty())
    } else {
        let p = params[0];
        match str_field(args, p.name@) {
            Some(v) => match dynamic_env(params.drop_first(), args) {
                Ok(rest) => Ok(seq![(p.name@, v)] + rest),
                Err(m) => Err(m),
            },
            None => if p.required {
                Err(p.name@)
            } else {
                dynamic_env(params.drop_first(), args)
            },
        }
    }
}

/// What calling the dynamic tool of `script_name` does: the execution it
/// asks for and its audit name, or why it refuses.
pub open spec fn dynamic_script_plan(
    store: Map<Seq<char>, StoredScript>,
    script_name: Seq<char>,
    args: JsonValue,
) -> Result<(RequestView, Seq<char>), Refusal> {
    if !store.dom().contains(script_name) {
        Err(Refusal::ScriptNotFound(script_name))
    } else {
        let s = store[script_name];
        match dynamic_env(s.parameters@, args) {
            Err(p) => Err(Refusal::InvalidParams("Missing required parameter: "@ + p)),
            Ok(env) => Ok(
                (
                    RequestView {
                        mode: ModeView::Script {
                            script: s.script@,
                            script_args: None,
                            env_vars: if env.len() == 0 {
                                None
                            } else {
                                Some(env)
                            },
                        },
                        cwd: str_field(args, "cwd"@),
                        timeout_secs: u64_field(args, "timeout_secs"@),
                        inactivity_timeout_secs: None,
                        max_lines: max_lines_arg(args),
                        detach: false,
                    },
                    "script_"@ + s.name@,
                ),
            ),
        }
    }
}

spec fn env_combine(
    pre: Seq<(Seq<char>, Seq<char>)>,
    r: Result<Seq<(Seq<char>, Seq<char>)>, Seq<char>>,
) -> Result<Seq<(Seq<char>, Seq<char>)>, Seq<char>> {
    match r {
        Ok(rest) => Ok(pre + rest),
        Err(m) => Err(m),
    }
}

/// Builds the environment of a stored script from the call's arguments.
fn build_script_env(params: &Vec<ScriptParameter>, args: &JsonValue) -> (res: Result<Vec<(String, String)>, TerminalMcpError>)
    ensures
        match dynamic_env(params@, *args) {
            Ok(env) => res matches Ok(v) && v@.map_values(|e: (String, String)| (e.0@, e.1@)) == env,
            Err(p) => match res {
                Err(e) => refused_with(e, Refusal::InvalidParams("Missing required parameter: "@ + p)),
                _ => false,
            },
        },
{
    let mut env: Vec<(String, String)> = Vec::new();
    let mut i: usize = 0;
    proof {
        assert(params@.skip(0) =~= params@);
        assert(env_combine(Seq::empty(), dynamic_env(params@, *args)) =~= dynamic_env(params@, *args)) by {
            match dynamic_env(params@, *args) {
                Ok(rest) => {
                    assert(Seq::<(Seq<char>, Seq<char>)>::empty() + rest =~= rest);
                },
                Err(_) => {},
            }
        }
    }
    while i < params.len()
        invariant
            i <= params@.len(),
            dynamic_env(params@, *args) == env_combine(
                env@.map_values(|e: (String, String)| (e.0@, e.1@)),
                dynamic_env(params@.skip(i as int), *args),
            ),
        decreases params@.len() - i,
    {
        let p = &params[i];
        let ghost pre = env@.map_values(|e: (String, String)| (e.0@, e.1@));
        let ghost rest = params@.skip(i as int);
        proof {
            assert(rest[0] == params@[i as int]);
            assert(rest.drop_first() =~= params@.skip(i as int + 1));
        }
        match get_str(args, p.name.as_str()) {
            Some(v) => {
                env.push((p.name.clone(), String::from_str(v)));
                proof {
                    let now = env@.map_values(|e: (String, String)| (e.0@, e.1@));
                    assert(now =~= pre + seq![(p.name@, v@)]);
                    match dynamic_env(params@.skip(i as int + 1), *args) {
                        Ok(r2) => {
                            assert(pre + (seq![(p.name@, v@)] + r2) =~= now + r2);
                        },
                        Err(_) => {},
                    }
                }
            },
            None => {
                if p.required {
                    let mut m = String::from_str("Missing required parameter: ");
                    m.append(p.name.as_str());
                    return Err(invalid_params(m));
                }
            },
        }
        i = i + 1;
    }
    proof {
        assert(params@.skip(params@.len() as int) =~= Seq::<ScriptParameter>::empty());
        let now = env@.map_values(|e: (String, String)| (e.0@, e.1@));
        assert(now + Seq::<(Seq<char>, Seq<char>)>::empty() =~= now);
    }
    Ok(env)
}

/// Why `terminal_store_script` refuses its arguments, if it does.
pub open spec fn store_refusal(args: JsonValue) -> Option<Refusal> {
    match str_field(args, "name"@) {
        None => Some(Refusal::InvalidParams("Missing required parameter: name"@)),
        Some(n) => match script_name_problem(n) {
            Some(m) => Some(Refusal::InvalidName(m)),
            None => if str_field(args, "description"@) is None {
                Some(Refusal::InvalidParams("Missing required parameter: description"@))
            } else if str_field(args, "script"@) is None {
                Some(Refusal::InvalidParams("Missing required parameter: script"@))
            } else {
                match field(args, "parameters"@) {
                    Some(JsonValue::Array(items)) => match first_param_problem(items@) {
                        Some(m) => Some(Refusal::InvalidParams(m)),
                        None => None,
                    },
                    _ => None,
                }
            },
        },
    }
}

/// `s` is the script that the arguments of `terminal_store_script` define.
pub open spec fn stored_from(s: StoredScript, args: JsonValue) -> bool {
    &&& str_field(args, "name"@) == Some(s.name@)
    &&& str_field(args, "description"@) == Some(s.description@)
    &&& str_field(args, "script"@) == Some(s.script@)
    &&& match field(args, "parameters"@) {
        Some(JsonValue::Array(items)) => {
            &&& s.parameters@.len() == items@.len()
            &&& forall|i: int|
                0 <= i < items@.len() ==> param_declared_by(#[trigger] s.parameters@[i], items@[i])
        },
        _ => s.parameters@.len() == 0,
    }
}

/// The reply to storing script `name`.
pub open spec fn store_message(name: Seq<char>, replaced: bool) -> Seq<char> {
    "Script '"@ + name + (if replaced {
        "' updated. Available as tool 'script_"@
    } else {
        "' stored. Available as tool 'script_"@
    }) + name + "'."@
}

/// `res` and the store change are what `terminal_store_script` does.
pub open spec fn store_outcome(
    before: Map<Seq<char>, StoredScript>,
    after: Map<Seq<char>, StoredScript>,
    args: JsonValue,
    res: Result<ToolStep, TerminalMcpError>,
) -> bool {
    match store_refusal(args) {
        Some(r) => after == before && match res {
            Err(e) => refused_with(e, r),
            _ => false,
        },
        None => {
            let n = str_field(args, "name"@).unwrap();
            &&& after == before.insert(n, after[n])
            &&& stored_from(after[n], args)
            &&& match res {
                Ok(ToolStep::Reply(o)) => o.tools_changed && match o.reply {
                    ToolReply::Text(t) => t@ == store_message(n, before.dom().contains(n)),
                    _ => false,
                },
                _ => false,
            }
        },
    }
}

/// Why `terminal_remove_script` refuses, if it does.
pub open spec fn remove_refusal(store: Map<Seq<char>, StoredScript>, args: JsonValue) -> Option<Refusal> {
    match str_field(args, "name"@) {
        None => Some(Refusal::InvalidParams("Missing required parameter: name"@)),
        Some(n) => if store.dom().contains(n) {
            None
        } else {
            Some(Refusal::ScriptNotFound(n))
        },
    }
}

/// `res` and the store change are what `terminal_remove_script` does.
pub open spec fn remove_outcome(
    before: Map<Seq<char>, StoredScript>,
    after: Map<Seq<char>, StoredScript>,
    args: JsonValue,
    res: Result<ToolStep, TerminalMcpError>,
) -> bool {
    match remove_refusal(before, args) {
        Some(r) => after == before && match res {
            Err(e) => refused_with(e, r),
            _ => false,
        },
        None => {
            let n = str_field(args, "name"@).unwrap();
            &&& after == before.remove(n)
            &&& match res {
                Ok(ToolStep::Reply(o)) => o.tools_changed && match o.reply {
                    ToolReply::Text(t) => t@ == "Script '"@ + n + "' removed."@,
                    _ => false,
                },
                _ => false,
            }
        },
    }
}

/// `v` summarizes stored script `s` in a listing.
pub open spec fn script_summary(v: JsonValue, s: StoredScript) -> bool {
    &&& object_keys(v) == seq!["description"@, "name"@, "parameter_count"@, "script_preview"@]
    &&& str_field(v, "description"@) == Some(s.description@)
    &&& str_field(v, "name"@) == Some(s.name@)
    &&& u64_field(v, "parameter_count"@) == Some(s.parameters@.len() as u64)
    &&& str_field(v, "script_preview"@) == Some(preview_of(s.script@))
}

/// `res` is the listing of `scripts`: one summary per stored script, in
/// listing order, as a JSON array.
pub open spec fn list_outcome(scripts: Seq<StoredScript>, res: Result<ToolStep, TerminalMcpError>) -> bool {
    match res {
        Ok(ToolStep::Reply(o)) => !o.tools_changed && match o.reply {
            ToolReply::Json(JsonValue::Array(items)) => {
                &&& items@.len() == scripts.len()
                &&& forall|i: int| 0 <= i < scripts.len() ==> script_summary(#[trigger] items@[i], scripts[i])
            },
            _ => false,
        },
        _ => false,
    }
}

proof fn lemma_summary_keys()
    ensures
        "description"@ != "name"@,
        "description"@ != "parameter_count"@,
        "description"@ != "script_preview"@,
        "name"@ != "parameter_count"@,
        "name"@ != "script_preview"@,
        "parameter_count"@ != "script_preview"@,
{
    reveal_strlit("description");
    reveal_strlit("name");
    reveal_strlit("parameter_count");
    reveal_strlit("script_preview");
    assert("description"@.len() == 11 && "name"@.len() == 4);
    assert("parameter_count"@.len() == 15 && "script_preview"@.len() == 14);
}

fn script_summary_json(s: &StoredScript) -> (v: JsonValue)
    ensures
        script_summary(v, *s),
{
    let e: Vec<(String, JsonValue)> = vec![
        (String::from_str("description"), JsonValue::Str(s.description.clone())),
        (String::from_str("name"), JsonValue::Str(s.name.clone())),
        (String::from_str("parameter_count"), JsonValue::Number(JsonNumber::PosInt(s.parameters.len() as u64))),
        (String::from_str("script_preview"), JsonValue::Str(script_preview(s.script.as_str()))),
    ];
    proof {
        lemma_summary_keys();
        let es = e@;
        assert(es[0].0@ == "description"@);
        assert(es[1].0@ == "name"@);
        assert(es[2].0@ == "parameter_count"@);
        assert(es[3].0@ == "script_preview"@);
        lemma_entry_lookup(es, "description"@, 0);
        lemma_entry_lookup(es, "name"@, 1);
        lemma_entry_lookup(es, "parameter_count"@, 2);
        lemma_entry_lookup(es, "script_preview"@, 3);
        assert(object_keys(JsonValue::Object(e)) =~= seq!["description"@, "name"@, "parameter_count"@, "script_preview"@]);
    }
    JsonValue::Object(e)
}

/// A tool definition: its name, description and JSON input schema.
#[derive(Debug)]
pub struct ToolSpec {
    pub name: String,
    pub description: String,
    pub input_schema: JsonValue,
}

/// The name, the JSON type and the description of each property of an
/// object schema, in order.
pub open spec fn property_specs(schema: JsonValue) -> Seq<(Seq<char>, Option<Seq<char>>, Option<Seq<char>>)> {
    match field(schema, "properties"@) {
        Some(JsonValue::Object(p)) => p@.map_values(
            |e: (String, JsonValue)| (e.0@, str_field(e.1, "type"@), str_field(e.1, "description"@)),
        ),
        _ => Seq::empty(),
    }
}

/// `schema` describes an object with the given properties and required
/// members.
pub open spec fn object_schema_of(
    schema: JsonValue,
    props: Seq<(String, JsonValue)>,
    required: Option<Seq<Seq<char>>>,
) -> bool {
    &&& object_keys(schema) == seq!["type"@, "properties"@] + if required is Some {
        seq!["required"@]
    } else {
        Seq::empty()
    }
    &&& str_field(schema, "type"@) == Some("object"@)
    &&& match field(schema, "properties"@) {
        Some(JsonValue::Object(p)) => p@ == props,
        _ => false,
    }
    &&& string_array_field(schema, "required"@) == required
}

proof fn lemma_schema_keys()
    ensures
        "type"@ != "properties"@,
        "type"@ != "required"@,
        "properties"@ != "required"@,
{
    reveal_strlit("type");
    reveal_strlit("properties");
    reveal_strlit("required");
    assert("type"@.len() == 4 && "properties"@.len() == 10 && "required"@.len() == 8);
}

fn json_str(s: &str) -> (v: JsonValue)
    ensures
        v matches JsonValue::Str(x) && x@ == s@,
{
    JsonValue::Str(String::from_str(s))
}

/// The string array of `names`.
fn string_array(names: &Vec<String>) -> (v: JsonValue)
    ensures
        match v {
            JsonValue::Array(items) => crate::json::string_items(items@) == names@.map_values(
                |x: String| x@,
            ) && items@.len() == names@.len(),
            _ => false,
        },
{
    let mut items: Vec<JsonValue> = Vec::new();
    let n = names.len();
    let mut i = n;
    while i > 0
        invariant
            i <= n,
            n == names@.len(),
            items@.len() == n - i,
            crate::json::string_items(items@) == names@.skip(i as int).map_values(|x: String| x@),
        decreases i,
    {
        i = i - 1;
        let ghost old_items = items@;
        items.insert(0, JsonValue::Str(names[i].clone()));
        proof {
            assert(items@.drop_first() =~= old_items);
            assert(names@.skip(i as int).map_values(|x: String| x@) =~= seq![names@[i as int]@] + names@.skip(i as int + 1).map_values(|x: String| x@));
        }
    }
    proof {
        assert(names@.skip(0) =~= names@);
    }
    JsonValue::Array(items)
}

/// An object schema with the given properties and required members.
fn object_schema(props: Vec<(String, JsonValue)>, required: Option<Vec<String>>) -> (v: JsonValue)
    ensures
        object_schema_of(
            v,
            props@,
            match required {
                Some(r) => Some(r@.map_values(|x: String| x@)),
                None => None,
            },
        ),
{
    let ghost props_v = props@;
    let ghost req_v = match &required {
        Some(r) => Some(r@.map_values(|x: String| x@)),
        None => None,
    };
    let mut e: Vec<(String, JsonValue)> = vec![
        (String::from_str("type"), json_str("object")),
        (String::from_str("properties"), JsonValue::Object(props)),
    ];
    match &required {
        Some(r) => {
            e.push((String::from_str("required"), string_array(r)));
        },
        None => {},
    }
    proof {
        lemma_schema_keys();
        let es = e@;
        lemma_entry_lookup(es, "type"@, 0);
        lemma_entry_lookup(es, "properties"@, 1);
        if req_v is Some {
            lemma_entry_lookup(es, "required"@, 2);
        } else {
            lemma_entry_lookup(es, "required"@, 2);
        }
        assert(object_keys(JsonValue::Object(e)) =~= seq!["type"@, "properties"@] + if req_v is Some {
            seq!["required"@]
        } else {
            Seq::empty()
        });
    }
    JsonValue::Object(e)
}

/// A property of the given JSON type with a description.
fn typed_property(ty: &str, description: &str) -> (v: JsonValue)
    ensures
        str_field(v, "type"@) == Some(ty@),
        str_field(v, "description"@) == Some(description@),
        object_keys(v) == seq!["type"@, "description"@],
{
    let e: Vec<(String, JsonValue)> = vec![
        (String::from_str("type"), json_str(ty)),
        (String::from_str("description"), json_str(description)),
    ];
    proof {
        reveal_strlit("type");
        reveal_strlit("description");
        assert("type"@.len() == 4 && "description"@.len() == 11);
        lemma_entry_lookup(e@, "type"@, 0);
        lemma_entry_lookup(e@, "description"@, 1);
        assert(object_keys(JsonValue::Object(e)) =~= seq!["type"@, "description"@]);
    }
    JsonValue::Object(e)
}

spec fn props_of(schema: JsonValue) -> Vec<(String, JsonValue)> {
    match field(schema, "properties"@) {
        Some(JsonValue::Object(p)) => p,
        _ => arbitrary(),
    }
}

/// The names of the required parameters, in order.
pub open spec fn required_names(params: Seq<ScriptParameter>) -> Seq<Seq<char>>
    decreases params.len(),
{
    if params.len() == 0 {
        Seq::empty()
    } else if params.last().required {
        required_names(params.drop_last()).push(params.last().name@)
    } else {
        required_names(params.drop_last())
    }
}

/// The input schema of a stored script's tool: one string property per
/// parameter, then `cwd`, `timeout_secs` and `max_lines`; the required
/// parameters are listed as required.
pub open spec fn dynamic_schema(schema: JsonValue, s: StoredScript) -> bool {
    &&& object_keys(schema) == seq!["type"@, "properties"@, "required"@]
    &&& str_field(schema, "type"@) == Some("object"@)
    &&& property_specs(schema) == s.parameters@.map_values(
        |p: ScriptParameter| (p.name@, Some("string"@), Some(p.description@)),
    ) + seq![
        ("cwd"@, Some("string"@), Some(SCRIPT_CWD_DOC@)),
        ("timeout_secs"@, Some("number"@), Some(SCRIPT_TIMEOUT_DOC@)),
        ("max_lines"@, Some("number"@), Some(SCRIPT_MAX_LINES_DOC@)),
    ]
    &&& string_array_field(schema, "required"@) == Some(required_names(s.parameters@))
}

/// The dynamic tool of a stored script: `script_<name>` with the script's
/// description and parameters.
pub fn dynamic_script_tool(stored: &StoredScript) -> (t: ToolSpec)
    ensures
        t.name@ == "script_"@ + stored.name@,
        t.description@ == stored.description@,
        dynamic_schema(t.input_schema, *stored),
{
    let mut props: Vec<(String, JsonValue)> = Vec::new();
    let mut required: Vec<String> = Vec::new();
    let params = &stored.parameters;
    let mut i: usize = 0;
    while i < params.len()
        invariant
            i <= params@.len(),
            props@.len() == i,
            forall|j: int| 0 <= j < i ==> (#[trigger] props@[j]).0@ == params@[j].name@,
            forall|j: int|
                0 <= j < i ==> str_field((#[trigger] props@[j]).1, "type"@) == Some("string"@)
                    && str_field(props@[j].1, "description"@) == Some(params@[j].description@),
            required@.map_values(|x: String| x@) == required_names(params@.take(i as int)),
        decreases params@.len() - i,
    {
        let p = &params[i];
        props.push((p.name.clone(), typed_property("string", p.description.as_str())));
        let ghost before = required@.map_values(|x: String| x@);
        if p.required {
            required.push(p.name.clone());
        }
        proof {
            assert(params@.take(i as int + 1).drop_last() =~= params@.take(i as int));
            if p.required {
                assert(required@.map_values(|x: String| x@) =~= before.push(p.name@));
            } else {
                assert(required@.map_values(|x: String| x@) =~= before);
            }
        }
        i = i + 1;
    }
    let ghost param_props = props@;
    props.push((String::from_str("cwd"), typed_property("string", SCRIPT_CWD_DOC)));
    props.push((String::from_str("timeout_secs"), typed_property("number", SCRIPT_TIMEOUT_DOC)));
    props.push(
        (String::from_str("max_lines"), typed_property("number", SCRIPT_MAX_LINES_DOC)),
    );
    let ghost all_props = props@;
    proof {
        assert(params@.take(params@.len() as int) =~= params@);
        let n = params@.len() as int;
        assert(all_props[n].0@ == "cwd"@ && str_field(all_props[n].1, "type"@) == Some("string"@));
        assert(str_field(all_props[n].1, "description"@) == Some(SCRIPT_CWD_DOC@));
        assert(all_props[n + 1].0@ == "timeout_secs"@ && str_field(all_props[n + 1].1, "type"@) == Some("number"@));
        assert(str_field(all_props[n + 1].1, "description"@) == Some(SCRIPT_TIMEOUT_DOC@));
        assert(all_props[n + 2].0@ == "max_lines"@ && str_field(all_props[n + 2].1, "type"@) == Some("number"@));
        assert(str_field(all_props[n + 2].1, "description"@) == Some(SCRIPT_MAX_LINES_DOC@));
        assert forall|j: int| 0 <= j < n implies (#[trigger] all_props[j]).0@ == params@[j].name@ && str_field(
            all_props[j].1,
            "type"@,
        ) == Some("string"@) && str_field(all_props[j].1, "description"@) == Some(params@[j].description@) by {
            assert(all_props[j] == param_props[j]);
        }
        assert(all_props.map_values(
            |e: (String, JsonValue)| (e.0@, str_field(e.1, "type"@), str_field(e.1, "description"@)),
        ) =~= params@.map_values(
            |p: ScriptParameter| (p.name@, Some("string"@), Some(p.description@)),
        ) + seq![
            ("cwd"@, Some("string"@), Some(SCRIPT_CWD_DOC@)),
            ("timeout_secs"@, Some("number"@), Some(SCRIPT_TIMEOUT_DOC@)),
            ("max_lines"@, Some("number"@), Some(SCRIPT_MAX_LINES_DOC@)),
        ]);
    }
    let ghost req_names = required@.map_values(|x: String| x@);
    let schema = object_schema(props, Some(required));
    proof {
        assert(field(schema, "properties"@) == Some(JsonValue::Object(props_of(schema))));
        assert(props_of(schema)@ == all_props);
        assert(object_keys(schema) =~= seq!["type"@, "properties"@, "required"@]);
        assert(str_field(schema, "type"@) == Some("object"@));
        assert(string_array_field(schema, "required"@) == Some(required_names(params@)));
    }
    ToolSpec {
        name: concat2("script_", stored.name.as_str()),
        description: stored.description.clone(),
        input_schema: schema,
    }
}

/// Descriptions of the properties of the tool schemas.
pub const SCRIPT_CWD_DOC: &'static str = "Working directory for the script.";
pub const SCRIPT_TIMEOUT_DOC: &'static str = "Timeout in seconds. Default: 30.";
pub const SCRIPT_MAX_LINES_DOC: &'static str = "Maximum output lines. Default: 200. 0 for unlimited.";
pub const EXECUTE_COMMAND_DOC: &'static str = "A shell command line, run via `sh -c` (e.g. `pacman -Qm`, `echo $PATH`, `ls /usr/bin/pacman`). Word-splitting, $VAR expansion, pipes, and redirection all work. Use `args` for positional parameters $1, $2, .... Provide exactly one of `command` or `script`.";
pub const EXECUTE_SCRIPT_DOC: &'static str = "A multi-line shell script to execute via `sh -s`. Provide exactly one of `command` or `script`. Mutually exclusive with `stdin`.";
pub const EXECUTE_CWD_DOC: &'static str = "Working directory for the command. Supports ~ expansion. If not specified, uses the server's current working directory.";
pub const EXECUTE_TIMEOUT_DOC: &'static str = "Absolute wall-clock timeout in seconds. Default: 30 seconds. Ignored when detach=true.";
pub const EXECUTE_INACTIVITY_DOC: &'static str = "Kill the command if it produces no stdout/stderr output for this many seconds. Independent of (and evaluated alongside) the absolute timeout_secs; whichever cap is reached first fires. Any output resets the clock, so a command that keeps producing output runs until the absolute timeout. Omit or set to 0 to disable. Ignored when detach=true.";
pub const EXECUTE_STDIN_DOC: &'static str = "Input to send to the process's stdin. Mutually exclusive with 'script'.";
pub const EXECUTE_MAX_LINES_DOC: &'static str = "Maximum number of lines to return for stdout and stderr (keeps the last N lines). Default: 200. Set to 0 for unlimited.";
pub const EXECUTE_DETACH_DOC: &'static str = "Launch the process fire-and-forget in a new session: no timeout, no captured output; returns immediately with 'detached_pid'. Default: false.";
pub const PARAM_NAME_DOC: &'static str = "Parameter name (will be set as an environment variable).";
pub const PARAM_DESCRIPTION_DOC: &'static str = "Description of the parameter.";
pub const PARAM_REQUIRED_DOC: &'static str = "Whether this parameter is required. Default: false.";
pub const STORE_NAME_DOC: &'static str = "Script name (alphanumeric and underscores only). The tool will be available as 'script_<name>'.";
pub const STORE_DESCRIPTION_DOC: &'static str = "Human-readable description of what the script does.";
pub const STORE_SCRIPT_DOC: &'static str = "The shell script body.";
pub const REMOVE_NAME_DOC: &'static str = "Name of the script to remove.";
pub const EXECUTE_ARGS_DOC: &'static str = "Positional parameters passed to the shell as $1, $2, ... (for both `command` and `script` modes; $0 is a placeholder).";
pub const STORE_PARAMETERS_DOC: &'static str = "Named parameters that will be passed as environment variables to the script.";

/// The properties of `terminal_execute`: names, JSON types and descriptions.
pub open spec fn terminal_execute_properties() -> Seq<(Seq<char>, Option<Seq<char>>, Option<Seq<char>>)> {
    seq![
        ("command"@, Some("string"@), Some(EXECUTE_COMMAND_DOC@)),
        ("args"@, Some("array"@), Some(EXECUTE_ARGS_DOC@)),
        ("script"@, Some("string"@), Some(EXECUTE_SCRIPT_DOC@)),
        ("cwd"@, Some("string"@), Some(EXECUTE_CWD_DOC@)),
        ("timeout_secs"@, Some("number"@), Some(EXECUTE_TIMEOUT_DOC@)),
        ("inactivity_timeout_secs"@, Some("number"@), Some(EXECUTE_INACTIVITY_DOC@)),
        ("stdin"@, Some("string"@), Some(EXECUTE_STDIN_DOC@)),
        ("max_lines"@, Some("number"@), Some(EXECUTE_MAX_LINES_DOC@)),
        ("detach"@, Some("boolean"@), Some(EXECUTE_DETACH_DOC@)),
    ]
}

/// The description of `terminal_execute`.
pub const TERMINAL_EXECUTE_DESCRIPTION: &'static str = "Execute a shell command or script and return stdout/stderr. Use 'command' for direct execution or 'script' for multi-line shell scripts. Returns exit code, stdout, stderr, and timeout status.\n\nExecution modes:\n- Bounded (default): the command runs with a timeout and its output is captured. If the timeout fires, the entire process group is terminated, so children are killed too.\n- Detach (detach=true): the command is launched fire-and-forget in a new session with NO timeout and NO captured output; the call returns immediately with 'detached_pid'. Use this only for processes meant to outlive the call (e.g. opening an app, starting a long background task).\n\nSECURITY: This tool runs arbitrary shell commands with the privileges of the user running the server. Only expose it to trusted clients. By default spawned commands do NOT inherit the server's environment (secrets are scrubbed); set MCP_TERMINAL_INHERIT_ENV=1 to opt back in. An optional allowlist can be configured via MCP_TERMINAL_ALLOWED_COMMANDS (comma-separated; unrestricted by default).";

/// The description of `terminal_store_script`.
pub const TERMINAL_STORE_SCRIPT_DESCRIPTION: &'static str = "Store a named shell script that becomes available as a dynamic tool 'script_<name>'. Scripts are session-scoped and cleared on server restart.";

/// The description of `terminal_remove_script`.
pub const TERMINAL_REMOVE_SCRIPT_DESCRIPTION: &'static str = "Remove a stored script, removing its dynamic tool.";

/// The description of `terminal_list_scripts`.
pub const TERMINAL_LIST_SCRIPTS_DESCRIPTION: &'static str = "List all stored scripts with their names, descriptions, and parameter counts.";

/// A property of an object schema, by name.
pub open spec fn schema_property(schema: JsonValue, key: Seq<char>) -> Option<JsonValue> {
    match field(schema, "properties"@) {
        Some(p) => field(p, key),
        None => None,
    }
}

/// `t` is the definition of `terminal_execute`.
pub open spec fn is_terminal_execute_tool(t: ToolSpec) -> bool {
    &&& t.name@ == "terminal_execute"@
    &&& t.description@ == TERMINAL_EXECUTE_DESCRIPTION@
    &&& str_field(t.input_schema, "type"@) == Some("object"@)
    &&& property_specs(t.input_schema) == terminal_execute_properties()
    &&& string_array_field(t.input_schema, "required"@) is None
    &&& match schema_property(t.input_schema, "args"@) {
        Some(args) => match field(args, "items"@) {
            Some(item) => str_field(item, "type"@) == Some("string"@),
            None => false,
        },
        None => false,
    }
}

/// The definition of `terminal_execute`.
pub fn terminal_execute_tool() -> (t: ToolSpec)
    ensures
        is_terminal_execute_tool(t),
{
    let mut array_props: Vec<(String, JsonValue)> = Vec::new();
    array_props.push((String::from_str("type"), json_str("array")));
    let mut item_props: Vec<(String, JsonValue)> = Vec::new();
    item_props.push((String::from_str("type"), json_str("string")));
    array_props.push((String::from_str("items"), JsonValue::Object(item_props)));
    array_props.push((String::from_str("description"), json_str(EXECUTE_ARGS_DOC)));
    let props: Vec<(String, JsonValue)> = vec![
        (String::from_str("command"), typed_property("string", EXECUTE_COMMAND_DOC)),
        (String::from_str("args"), JsonValue::Object(array_props)),
        (String::from_str("script"), typed_property("string", EXECUTE_SCRIPT_DOC)),
        (String::from_str("cwd"), typed_property("string", EXECUTE_CWD_DOC)),
        (String::from_str("timeout_secs"), typed_property("number", EXECUTE_TIMEOUT_DOC)),
        (String::from_str("inactivity_timeout_secs"), typed_property("number", EXECUTE_INACTIVITY_DOC)),
        (String::from_str("stdin"), typed_property("string", EXECUTE_STDIN_DOC)),
        (String::from_str("max_lines"), typed_property("number", EXECUTE_MAX_LINES_DOC)),
        (String::from_str("detach"), typed_property("boolean", EXECUTE_DETACH_DOC)),
    ];
    proof {
        reveal_strlit("type");
        reveal_strlit("items");
        reveal_strlit("command");
        reveal_strlit("args");
        assert("type"@.len() == 4 && "items"@.len() == 5 && "command"@.len() == 7 && "args"@.len() == 4);
        lemma_entry_lookup(props@, "args"@, 1);
        reveal_strlit("description");
        assert("description"@.len() == 11);
        if let JsonValue::Object(ap) = props@[1].1 {
            lemma_entry_lookup(ap@, "items"@, 1);
            lemma_entry_lookup(ap@, "description"@, 2);
        }
        assert(str_field(props@[1].1, "type"@) == Some("array"@));
        assert(str_field(props@[1].1, "description"@) == Some(EXECUTE_ARGS_DOC@));
        assert(props@.map_values(|e: (String, JsonValue)| (e.0@, str_field(e.1, "type"@), str_field(e.1, "description"@))) =~= terminal_execute_properties());
    }
    let schema = object_schema(props, None);
    proof {
        assert(field(schema, "properties"@) == Some(JsonValue::Object(props_of(schema))));
    }
    ToolSpec {
        name: String::from_str("terminal_execute"),
        description: String::from_str(TERMINAL_EXECUTE_DESCRIPTION),
        input_schema: schema,
    }
}

/// `t` is the definition of `terminal_store_script`.
pub open spec fn is_terminal_store_script_tool(t: ToolSpec) -> bool {
    &&& t.name@ == "terminal_store_script"@
    &&& t.description@ == TERMINAL_STORE_SCRIPT_DESCRIPTION@
    &&& str_field(t.input_schema, "type"@) == Some("object"@)
    &&& property_specs(t.input_schema) == seq![
        ("name"@, Some("string"@), Some(STORE_NAME_DOC@)),
        ("description"@, Some("string"@), Some(STORE_DESCRIPTION_DOC@)),
        ("script"@, Some("string"@), Some(STORE_SCRIPT_DOC@)),
        ("parameters"@, Some("array"@), Some(STORE_PARAMETERS_DOC@)),
    ]
    &&& string_array_field(t.input_schema, "required"@) == Some(seq!["name"@, "description"@, "script"@])
    &&& match schema_property(t.input_schema, "parameters"@) {
        Some(parameters) => match field(parameters, "items"@) {
            Some(item) => {
                &&& str_field(item, "type"@) == Some("object"@)
                &&& property_specs(item) == seq![
                    ("name"@, Some("string"@), Some(PARAM_NAME_DOC@)),
                    ("description"@, Some("string"@), Some(PARAM_DESCRIPTION_DOC@)),
                    ("required"@, Some("boolean"@), Some(PARAM_REQUIRED_DOC@)),
                ]
                &&& string_array_field(item, "required"@) == Some(seq!["name"@])
            },
            None => false,
        },
        None => false,
    }
}

/// The definition of `terminal_store_script`.
pub fn terminal_store_script_tool() -> (t: ToolSpec)
    ensures
        is_terminal_store_script_tool(t),
{
    let param_props: Vec<(String, JsonValue)> = vec![
        (String::from_str("name"), typed_property("string", PARAM_NAME_DOC)),
        (String::from_str("description"), typed_property("string", PARAM_DESCRIPTION_DOC)),
        (String::from_str("required"), typed_property("boolean", PARAM_REQUIRED_DOC)),
    ];
    let ghost pp = param_props@;
    let item_required = vec![String::from_str("name")];
    proof {
        assert(item_required@.map_values(|x: String| x@) =~= seq!["name"@]);
        assert(pp.map_values(|e: (String, JsonValue)| (e.0@, str_field(e.1, "type"@), str_field(e.1, "description"@))) =~= seq![
            ("name"@, Some("string"@), Some(PARAM_NAME_DOC@)),
            ("description"@, Some("string"@), Some(PARAM_DESCRIPTION_DOC@)),
            ("required"@, Some("boolean"@), Some(PARAM_REQUIRED_DOC@)),
        ]);
    }
    let item_schema = object_schema(param_props, Some(item_required));
    let ghost item = item_schema;
    proof {
        assert(field(item, "properties"@) == Some(JsonValue::Object(props_of(item))));
    }
    let array_props: Vec<(String, JsonValue)> = vec![
        (String::from_str("type"), json_str("array")),
        (String::from_str("items"), item_schema),
        (String::from_str("description"), json_str(STORE_PARAMETERS_DOC)),
    ];
    proof {
        reveal_strlit("type");
        reveal_strlit("items");
        assert("type"@.len() == 4 && "items"@.len() == 5);
        lemma_entry_lookup(array_props@, "items"@, 1);
        reveal_strlit("description");
        assert("description"@.len() == 11);
        lemma_entry_lookup(array_props@, "description"@, 2);
    }
    let props: Vec<(String, JsonValue)> = vec![
        (String::from_str("name"), typed_property("string", STORE_NAME_DOC)),
        (String::from_str("description"), typed_property("string", STORE_DESCRIPTION_DOC)),
        (String::from_str("script"), typed_property("string", STORE_SCRIPT_DOC)),
        (String::from_str("parameters"), JsonValue::Object(array_props)),
    ];
    proof {
        assert(str_field(props@[3].1, "type"@) == Some("array"@));
        assert(str_field(props@[3].1, "description"@) == Some(STORE_PARAMETERS_DOC@));
        assert(props@.map_values(|e: (String, JsonValue)| (e.0@, str_field(e.1, "type"@), str_field(e.1, "description"@))) =~= seq![
            ("name"@, Some("string"@), Some(STORE_NAME_DOC@)),
            ("description"@, Some("string"@), Some(STORE_DESCRIPTION_DOC@)),
            ("script"@, Some("string"@), Some(STORE_SCRIPT_DOC@)),
            ("parameters"@, Some("array"@), Some(STORE_PARAMETERS_DOC@)),
        ]);
        reveal_strlit("name");
        reveal_strlit("description");
        reveal_strlit("script");
        reveal_strlit("parameters");
        assert("name"@.len() == 4 && "description"@.len() == 11 && "script"@.len() == 6 && "parameters"@.len() == 10);
        lemma_entry_lookup(props@, "parameters"@, 3);
    }
    let required: Vec<String> = vec![String::from_str("name"), String::from_str("description"), String::from_str("script")];
    proof {
        assert(required@.map_values(|x: String| x@) =~= seq!["name"@, "description"@, "script"@]);
    }
    let schema = object_schema(props, Some(required));
    proof {
        assert(field(schema, "properties"@) == Some(JsonValue::Object(props_of(schema))));
    }
    ToolSpec {
        name: String::from_str("terminal_store_script"),
        description: String::from_str(TERMINAL_STORE_SCRIPT_DESCRIPTION),
        input_schema: schema,
    }
}

/// `t` is the definition of `terminal_remove_script`.
pub open spec fn is_terminal_remove_script_tool(t: ToolSpec) -> bool {
    &&& t.name@ == "terminal_remove_script"@
    &&& t.description@ == TERMINAL_REMOVE_SCRIPT_DESCRIPTION@
    &&& str_field(t.input_schema, "type"@) == Some("object"@)
    &&& property_specs(t.input_schema) == seq![("name"@, Some("string"@), Some(REMOVE_NAME_DOC@))]
    &&& string_array_field(t.input_schema, "required"@) == Some(seq!["name"@])
}

/// The definition of `terminal_remove_script`.
pub fn terminal_remove_script_tool() -> (t: ToolSpec)
    ensures
        is_terminal_remove_script_tool(t),
{
    let props: Vec<(String, JsonValue)> = vec![
        (String::from_str("name"), typed_property("string", REMOVE_NAME_DOC)),
    ];
    proof {
        assert(props@.map_values(|e: (String, JsonValue)| (e.0@, str_field(e.1, "type"@), str_field(e.1, "description"@))) =~= seq![
            ("name"@, Some("string"@), Some(REMOVE_NAME_DOC@)),
        ]);
    }
    let required: Vec<String> = vec![String::from_str("name")];
    proof {
        assert(required@.map_values(|x: String| x@) =~= seq!["name"@]);
    }
    let schema = object_schema(props, Some(required));
    proof {
        assert(field(schema, "properties"@) == Some(JsonValue::Object(props_of(schema))));
    }
    ToolSpec {
        name: String::from_str("terminal_remove_script"),
        description: String::from_str(TERMINAL_REMOVE_SCRIPT_DESCRIPTION),
        input_schema: schema,
    }
}

/// `t` is the definition of `terminal_list_scripts`.
pub open spec fn is_terminal_list_scripts_tool(t: ToolSpec) -> bool {
    &&& t.name@ == "terminal_list_scripts"@
    &&& t.description@ == TERMINAL_LIST_SCRIPTS_DESCRIPTION@
    &&& str_field(t.input_schema, "type"@) == Some("object"@)
    &&& property_specs(t.input_schema) == Seq::<(Seq<char>, Option<Seq<char>>, Option<Seq<char>>)>::empty()
    &&& string_array_field(t.input_schema, "required"@) is None
}

/// The definition of `terminal_list_scripts`.
pub fn terminal_list_scripts_tool() -> (t: ToolSpec)
    ensures
        is_terminal_list_scripts_tool(t),
{
    let props: Vec<(String, JsonValue)> = Vec::new();
    proof {
        assert(props@.map_values(|e: (String, JsonValue)| (e.0@, str_field(e.1, "type"@), str_field(e.1, "description"@))) =~= Seq::<
            (Seq<char>, Option<Seq<char>>, Option<Seq<char>>),
        >::empty());
    }
    let schema = object_schema(props, None);
    proof {
        assert(field(schema, "properties"@) == Some(JsonValue::Object(props_of(schema))));
    }
    ToolSpec {
        name: String::from_str("terminal_list_scripts"),
        description: String::from_str(TERMINAL_LIST_SCRIPTS_DESCRIPTION),
        input_schema: schema,
    }
}

/// `name` starts with `script_`: the name of a dynamic tool.
pub open spec fn is_script_tool_name(name: Seq<char>) -> bool {
    name.len() >= "script_"@.len() && name.take("script_"@.len() as int) == "script_"@
}

/// What a call of tool `name` with `args` does to a store holding `before`
/// (listed as `listing`), leaving `after`, and what it returns.
pub open spec fn tool_call_outcome(
    before: Map<Seq<char>, StoredScript>,
    after: Map<Seq<char>, StoredScript>,
    listing: Seq<StoredScript>,
    name: Seq<char>,
    args: JsonValue,
    res: Result<ToolStep, TerminalMcpError>,
) -> bool {
    if !(args is Object) {
        after == before && match res {
            Err(e) => refused_with(e, Refusal::InvalidParams("Arguments must be an object"@)),
            _ => false,
        }
    } else if name == "terminal_execute"@ {
        after == before && execution_outcome(terminal_execute_plan(args), res)
    } else if name == "terminal_store_script"@ {
        store_outcome(before, after, args, res)
    } else if name == "terminal_remove_script"@ {
        remove_outcome(before, after, args, res)
    } else if name == "terminal_list_scripts"@ {
        after == before && list_outcome(listing, res)
    } else if is_script_tool_name(name) {
        after == before && execution_outcome(
            dynamic_script_plan(before, name.skip("script_"@.len() as int), args),
            res,
        )
    } else {
        after == before && match res {
            Err(e) => refused_with(e, Refusal::ToolNotFound(name)),
            _ => false,
        }
    }
}

/// How a call of tool `name` with `args` changes the listing of stored
/// scripts: a successful store replaces or appends the script, a successful
/// remove takes it out, and every other call leaves the listing as it was.
pub open spec fn listing_change(
    before: Seq<StoredScript>,
    after: Seq<StoredScript>,
    name: Seq<char>,
    args: JsonValue,
    res: Result<ToolStep, TerminalMcpError>,
) -> bool {
    if res is Ok && name == "terminal_store_script"@ {
        stored_into_listing(before, after, str_field(args, "name"@).unwrap())
    } else if res is Ok && name == "terminal_remove_script"@ {
        removed_from_listing(before, after, str_field(args, "name"@).unwrap())
    } else {
        after == before
    }
}

/// `tools` lists the four built-in tools, then one `script_<name>` tool per
/// entry of `listing`, in order.
pub open spec fn lists_tools(tools: Seq<ToolSpec>, listing: Seq<StoredScript>) -> bool {
    &&& tools.len() == 4 + listing.len()
    &&& is_terminal_execute_tool(tools[0])
    &&& is_terminal_store_script_tool(tools[1])
    &&& is_terminal_remove_script_tool(tools[2])
    &&& is_terminal_list_scripts_tool(tools[3])
    &&& forall|i: int|
        0 <= i < listing.len() ==> {
            &&& (#[trigger] tools[i + 4]).name@ == "script_"@ + listing[i].name@
            &&& tools[i + 4].description@ == listing[i].description@
            &&& dynamic_schema(tools[i + 4].input_schema, listing[i])
        }
}

/// Registry of the built-in tools and of the dynamic tools of stored
/// scripts.
pub struct ToolRegistry {
    scripts: ScriptStore,
}

impl View for ToolRegistry {
    type V = Map<Seq<char>, StoredScript>;

    closed spec fn view(&self) -> Map<Seq<char>, StoredScript> {
        self.scripts@
    }
}

impl ToolRegistry {
    /// The store of scripts is well formed.
    pub closed spec fn wf(&self) -> bool {
        self.scripts.wf()
    }

    /// The stored scripts in listing order.
    pub closed spec fn listing(&self) -> Seq<StoredScript> {
        self.scripts.listing()
    }

    /// The listing holds each stored script exactly once.
    pub proof fn lemma_listing(&self)
        requires
            self.wf(),
        ensures
            names_unique(self.listing()),
            self@ == scripts_by_name(self.listing()),
    {
        self.scripts.lemma_listing();
    }

    /// A registry with no stored scripts.
    pub fn new() -> (r: Self)
        ensures
            r.wf(),
            r@ == Map::<Seq<char>, StoredScript>::empty(),
            r.listing().len() == 0,
    {
        ToolRegistry { scripts: ScriptStore::new() }
    }

    /// The stored scripts in listing order.
    pub fn stored_scripts(&self) -> (v: &Vec<StoredScript>)
        ensures
            v@ == self.listing(),
    {
        self.scripts.scripts()
    }

    /// Executes the tool `name` with `arguments`. Built-in tools that manage
    /// scripts finish here; `terminal_execute` and the dynamic `script_<name>`
    /// tools return the execution to run.
    pub fn execute_tool(&mut self, name: &str, arguments: &JsonValue) -> (res: Result<ToolStep, TerminalMcpError>)
        requires
            old(self).wf(),
        ensures
            final(self).wf(),
            tool_call_outcome(old(self)@, final(self)@, old(self).listing(), name@, *arguments, res),
            listing_change(old(self).listing(), final(self).listing(), name@, *arguments, res),
    {
        proof {
            lemma_builtin_names_distinct();
        }
        match arguments {
            JsonValue::Object(_) => {},
            _ => {
                return Err(invalid_params(String::from_str("Arguments must be an object")));
            },
        }
        if str_eq(name, "terminal_execute") {
            exec_terminal_execute(arguments)
        } else if str_eq(name, "terminal_store_script") {
            self.exec_store_script(arguments)
        } else if str_eq(name, "terminal_remove_script") {
            self.exec_remove_script(arguments)
        } else if str_eq(name, "terminal_list_scripts") {
            self.exec_list_scripts()
        } else {
            match strip_prefix(name, "script_") {
                Some(script_name) => self.exec_dynamic_script(script_name.as_str(), arguments),
                None => Err(TerminalMcpError::Mcp(McpError::ToolNotFound(String::from_str(name)))),
            }
        }
    }

    /// The available tools: the four built-ins, then one `script_<name>`
    /// tool per stored script in listing order.
    pub fn list_tools(&self) -> (tools: Vec<ToolSpec>)
        requires
            self.wf(),
        ensures
            lists_tools(tools@, self.listing()),
    {
        let mut tools: Vec<ToolSpec> = Vec::new();
        tools.push(terminal_execute_tool());
        tools.push(terminal_store_script_tool());
        tools.push(terminal_remove_script_tool());
        tools.push(terminal_list_scripts_tool());
        let scripts = self.scripts.scripts();
        let mut i: usize = 0;
        while i < scripts.len()
            invariant
                i <= scripts@.len(),
                scripts@ == self.listing(),
                tools@.len() == 4 + i,
                is_terminal_execute_tool(tools@[0]),
                is_terminal_store_script_tool(tools@[1]),
                is_terminal_remove_script_tool(tools@[2]),
                is_terminal_list_scripts_tool(tools@[3]),
                forall|j: int|
                    0 <= j < i ==> {
                        &&& (#[trigger] tools@[j + 4]).name@ == "script_"@ + scripts@[j].name@
                        &&& tools@[j + 4].description@ == scripts@[j].description@
                        &&& dynamic_schema(tools@[j + 4].input_schema, scripts@[j])
                    },
            decreases scripts@.len() - i,
        {
            tools.push(dynamic_script_tool(&scripts[i]));
            proof {
                assert(tools@[i + 4] == tools@.last());
            }
            i = i + 1;
        }
        tools
    }

    fn exec_store_script(&mut self, args: &JsonValue) -> (res: Result<ToolStep, TerminalMcpError>)
        requires
            old(self).wf(),
        ensures
            final(self).wf(),
            store_outcome(old(self)@, final(self)@, *args, res),
            if res is Ok {
                stored_into_listing(old(self).listing(), final(self).listing(), str_field(*args, "name"@).unwrap())
            } else {
                final(self).listing() == old(self).listing()
            },
    {
        let name = match get_str(args, "name") {
            Some(n) => n,
            None => {
                return Err(invalid_params(String::from_str("Missing required parameter: name")));
            },
        };
        match validate_script_name(name) {
            Ok(()) => {},
            Err(e) => {
                return Err(e);
            },
        }
        let description = match get_str(args, "description") {
            Some(d) => d,
            None => {
                return Err(invalid_params(String::from_str("Missing required parameter: description")));
            },
        };
        let script_body = match get_str(args, "script") {
            Some(b) => b,
            None => {
                return Err(invalid_params(String::from_str("Missing required parameter: script")));
            },
        };
        let parameters = match parse_script_parameters(get_field(args, "parameters")) {
            Ok(ps) => ps,
            Err(e) => {
                return Err(e);
            },
        };
        let stored = StoredScript {
            name: String::from_str(name),
            description: String::from_str(description),
            script: String::from_str(script_body),
            parameters,
        };
        let ghost stored_v = stored;
        let replaced = self.scripts.insert(stored);
        proof {
            assert(self@[name@] == stored_v);
            assert(self@ =~= old(self)@.insert(name@, self@[name@]));
        }
        let mut message = String::from_str("Script '");
        message.append(name);
        if replaced {
            message.append("' updated. Available as tool 'script_");
        } else {
            message.append("' stored. Available as tool 'script_");
        }
        message.append(name);
        message.append("'.");
        Ok(ToolStep::Reply(ToolOutcome { reply: ToolReply::Text(message), tools_changed: true }))
    }

    fn exec_remove_script(&mut self, args: &JsonValue) -> (res: Result<ToolStep, TerminalMcpError>)
        requires
            old(self).wf(),
        ensures
            final(self).wf(),
            remove_outcome(old(self)@, final(self)@, *args, res),
            if res is Ok {
                removed_from_listing(old(self).listing(), final(self).listing(), str_field(*args, "name"@).unwrap())
            } else {
                final(self).listing() == old(self).listing()
            },
    {
        let name = match get_str(args, "name") {
            Some(n) => n,
            None => {
                return Err(invalid_params(String::from_str("Missing required parameter: name")));
            },
        };
        let removed = self.scripts.remove(name);
        if removed {
            Ok(
                ToolStep::Reply(
                    ToolOutcome { reply: ToolReply::Text(concat3("Script '", name, "' removed.")), tools_changed: true },
                ),
            )
        } else {
            proof {
                assert(self@ =~= old(self)@);
            }
            Err(TerminalMcpError::Script(ScriptError::NotFound(String::from_str(name))))
        }
    }

    fn exec_list_scripts(&self) -> (res: Result<ToolStep, TerminalMcpError>)
        requires
            self.wf(),
        ensures
            list_outcome(self.listing(), res),
    {
        let scripts = self.scripts.scripts();
        let mut items: Vec<JsonValue> = Vec::new();
        let mut i: usize = 0;
        while i < scripts.len()
            invariant
                i <= scripts@.len(),
                items@.len() == i,
                forall|j: int| 0 <= j < i ==> script_summary(#[trigger] items@[j], scripts@[j]),
            decreases scripts@.len() - i,
        {
            items.push(script_summary_json(&scripts[i]));
            i = i + 1;
        }
        Ok(
            ToolStep::Reply(
                ToolOutcome { reply: ToolReply::Json(JsonValue::Array(items)), tools_changed: false },
            ),
        )
    }

    fn exec_dynamic_script(&self, script_name: &str, args: &JsonValue) -> (res: Result<ToolStep, TerminalMcpError>)
        requires
            self.wf(),
        ensures
            execution_outcome(dynamic_script_plan(self@, script_name@, *args), res),
    {
        let stored = match self.scripts.get(script_name) {
            Some(s) => s,
            None => {
                return Err(TerminalMcpError::Script(ScriptError::NotFound(String::from_str(script_name))));
            },
        };
        let env = match build_script_env(&stored.parameters, args) {
            Ok(e) => e,
            Err(e) => {
                return Err(e);
            },
        };
        let cwd = owned(get_str(args, "cwd"));
        let timeout_secs = get_u64(args, "timeout_secs");
        let max_lines = match get_u64(args, "max_lines") {
            Some(v) => Some(v as usize),
            None => None,
        };
        let env_ref = if env.len() == 0 {
            None
        } else {
            Some(env)
        };
        let request = ExecutionRequest {
            mode: ExecuteMode::Script {
                script: stored.script.clone(),
                script_args: None,
                env_vars: env_ref,
            },
            cwd,
            timeout_secs,
            inactivity_timeout_secs: None,
            max_lines,
            detach: false,
        };
        let desc = concat2("script_", stored.name.as_str());
        Ok(ToolStep::Run(PendingExecution { request, command_desc: desc }))
    }
}

} // verus!

verus! {

proof fn lemma_script_tool_name(n: Seq<char>)
    ensures
        is_script_tool_name("script_"@ + n),
        ("script_"@ + n).skip("script_"@.len() as int) == n,
        "script_"@ + n != "terminal_execute"@,
        "script_"@ + n != "terminal_store_script"@,
        "script_"@ + n != "terminal_remove_script"@,
        "script_"@ + n != "terminal_list_scripts"@,
{
    reveal_strlit("script_");
    reveal_strlit("terminal_execute");
    reveal_strlit("terminal_store_script");
    reveal_strlit("terminal_remove_script");
    reveal_strlit("terminal_list_scripts");
    let full = "script_"@ + n;
    assert(full.take("script_"@.len() as int) =~= "script_"@);
    assert(full.skip("script_"@.len() as int) =~= n);
    assert(full[0] == 's');
    assert("terminal_execute"@[0] == 't');
    assert("terminal_store_script"@[0] == 't');
    assert("terminal_remove_script"@[0] == 't');
    assert("terminal_list_scripts"@[0] == 't');
}

proof fn lemma_builtin_names_distinct()
    ensures
        "terminal_execute"@ != "terminal_store_script"@,
        "terminal_execute"@ != "terminal_remove_script"@,
        "terminal_execute"@ != "terminal_list_scripts"@,
        "terminal_store_script"@ != "terminal_remove_script"@,
        "terminal_store_script"@ != "terminal_list_scripts"@,
        "terminal_remove_script"@ != "terminal_list_scripts"@,
{
    reveal_strlit("terminal_execute");
    reveal_strlit("terminal_store_script");
    reveal_strlit("terminal_remove_script");
    reveal_strlit("terminal_list_scripts");
    assert("terminal_execute"@.len() == 16);
    assert("terminal_store_script"@.len() == 21);
    assert("terminal_remove_script"@.len() == 22);
    assert("terminal_list_scripts"@.len() == 21);
    assert("terminal_store_script"@[9] != "terminal_list_scripts"@[9]);
}

/// A stored script is what a read gives back: after `terminal_store_script`
/// succeeds, the registry holds the script its arguments define, under its
/// name, and every other name keeps its script.
pub proof fn lemma_store_then_read(
    before: Map<Seq<char>, StoredScript>,
    after: Map<Seq<char>, StoredScript>,
    listing: Seq<StoredScript>,
    args: JsonValue,
    res: Result<ToolStep, TerminalMcpError>,
)
    requires
        tool_call_outcome(before, after, listing, "terminal_store_script"@, args, res),
        res is Ok,
    ensures
        ({
            let n = str_field(args, "name"@).unwrap();
            &&& after.dom().contains(n)
            &&& stored_from(after[n], args)
            &&& forall|k: Seq<char>| k != n ==> after.dom().contains(k) == before.dom().contains(k)
            &&& forall|k: Seq<char>| k != n && before.dom().contains(k) ==> after[k] == before[k]
        }),
{
    lemma_builtin_names_distinct();
}

/// Storing a script under a name that is already taken replaces it and says
/// so; a new name is reported as stored.
pub proof fn lemma_store_reports_update(
    before: Map<Seq<char>, StoredScript>,
    after: Map<Seq<char>, StoredScript>,
    listing: Seq<StoredScript>,
    args: JsonValue,
    res: Result<ToolStep, TerminalMcpError>,
)
    requires
        tool_call_outcome(before, after, listing, "terminal_store_script"@, args, res),
        res is Ok,
    ensures
        ({
            let n = str_field(args, "name"@).unwrap();
            match res {
                Ok(ToolStep::Reply(o)) => o.tools_changed && match o.reply {
                    ToolReply::Text(t) => t@ == store_message(n, before.dom().contains(n)),
                    _ => false,
                },
                _ => false,
            }
        }),
{
    lemma_builtin_names_distinct();
}

/// After a script is stored, its dynamic tool finds it: calling
/// `script_<name>` is never refused as an unknown script.
pub proof fn lemma_stored_script_is_callable(
    store: Map<Seq<char>, StoredScript>,
    after: Map<Seq<char>, StoredScript>,
    listing: Seq<StoredScript>,
    n: Seq<char>,
    args: JsonValue,
    res: Result<ToolStep, TerminalMcpError>,
)
    requires
        store.dom().contains(n),
        args is Object,
        tool_call_outcome(store, after, listing, "script_"@ + n, args, res),
    ensures
        after == store,
        dynamic_script_plan(store, n, args) !is Err || !(dynamic_script_plan(store, n, args)->Err_0 is ScriptNotFound),
        res is Ok || !(res->Err_0 is Script),
{
    lemma_script_tool_name(n);
}

/// After a script is removed, calling its dynamic tool fails with "script
/// not found" and leaves the store unchanged.
pub proof fn lemma_removed_script_not_found(
    before: Map<Seq<char>, StoredScript>,
    after: Map<Seq<char>, StoredScript>,
    listing: Seq<StoredScript>,
    args: JsonValue,
    res: Result<ToolStep, TerminalMcpError>,
    call_after: Map<Seq<char>, StoredScript>,
    listing2: Seq<StoredScript>,
    args2: JsonValue,
    res2: Result<ToolStep, TerminalMcpError>,
)
    requires
        tool_call_outcome(before, after, listing, "terminal_remove_script"@, args, res),
        res is Ok,
        args2 is Object,
        tool_call_outcome(after, call_after, listing2, "script_"@ + str_field(args, "name"@).unwrap(), args2, res2),
    ensures
        !after.dom().contains(str_field(args, "name"@).unwrap()),
        call_after == after,
        match res2 {
            Err(e) => refused_with(e, Refusal::ScriptNotFound(str_field(args, "name"@).unwrap())),
            _ => false,
        },
{
    lemma_builtin_names_distinct();
    lemma_script_tool_name(str_field(args, "name"@).unwrap());
}

/// Removing a name that is not stored is refused with "script not found"
/// and changes nothing.
pub proof fn lemma_remove_missing_refused(
    before: Map<Seq<char>, StoredScript>,
    after: Map<Seq<char>, StoredScript>,
    listing: Seq<StoredScript>,
    args: JsonValue,
    res: Result<ToolStep, TerminalMcpError>,
)
    requires
        args is Object,
        str_field(args, "name"@) is Some,
        !before.dom().contains(str_field(args, "name"@).unwrap()),
        tool_call_outcome(before, after, listing, "terminal_remove_script"@, args, res),
    ensures
        after == before,
        match res {
            Err(e) => refused_with(e, Refusal::ScriptNotFound(str_field(args, "name"@).unwrap())),
            _ => false,
        },
{
    lemma_builtin_names_distinct();
}

/// Removing a script undoes storing it: storing a new name and then
/// removing it gives back the store it started from.
pub proof fn lemma_store_then_remove_restores(
    s0: Map<Seq<char>, StoredScript>,
    s1: Map<Seq<char>, StoredScript>,
    s2: Map<Seq<char>, StoredScript>,
    l0: Seq<StoredScript>,
    l1: Seq<StoredScript>,
    store_args: JsonValue,
    r1: Result<ToolStep, TerminalMcpError>,
    remove_args: JsonValue,
    r2: Result<ToolStep, TerminalMcpError>,
)
    requires
        tool_call_outcome(s0, s1, l0, "terminal_store_script"@, store_args, r1),
        r1 is Ok,
        !s0.dom().contains(str_field(store_args, "name"@).unwrap()),
        remove_args is Object,
        str_field(remove_args, "name"@) == str_field(store_args, "name"@),
        tool_call_outcome(s1, s2, l1, "terminal_remove_script"@, remove_args, r2),
    ensures
        r2 is Ok,
        s2 == s0,
{
    lemma_builtin_names_distinct();
    let n = str_field(store_args, "name"@).unwrap();
    assert(s1.dom().contains(n));
    assert(s2 =~= s0);
}

/// Only storing and removing scripts change the set of tools; executions
/// and listings never do.
pub proof fn lemma_tools_changed_only_by_store_and_remove(
    before: Map<Seq<char>, StoredScript>,
    after: Map<Seq<char>, StoredScript>,
    listing: Seq<StoredScript>,
    name: Seq<char>,
    args: JsonValue,
    res: Result<ToolStep, TerminalMcpError>,
)
    requires
        tool_call_outcome(before, after, listing, name, args, res),
        name != "terminal_store_script"@,
        name != "terminal_remove_script"@,
    ensures
        after == before,
        match res {
            Ok(ToolStep::Reply(o)) => !o.tools_changed,
            _ => true,
        },
{
}

/// A refused tool call changes nothing: whatever the tool and the
/// arguments, an error leaves the stored scripts as they were.
pub proof fn lemma_refused_call_changes_nothing(
    before: Map<Seq<char>, StoredScript>,
    after: Map<Seq<char>, StoredScript>,
    listing: Seq<StoredScript>,
    name: Seq<char>,
    args: JsonValue,
    res: Result<ToolStep, TerminalMcpError>,
)
    requires
        tool_call_outcome(before, after, listing, name, args, res),
        res is Err,
    ensures
        after == before,
{
}

/// Every stored script appears once in the registry's listing, so
/// `list_tools` offers one `script_<name>` tool per stored script.
pub proof fn lemma_listing_matches_store(r: &ToolRegistry, n: Seq<char>)
    requires
        r.wf(),
    ensures
        r@.dom().contains(n) <==> exists|i: int| 0 <= i < r.listing().len() && r.listing()[i].name@ == n,
        forall|i: int| 0 <= i < r.listing().len() ==> #[trigger] r@[r.listing()[i].name@] == r.listing()[i],
{
    r.lemma_listing();
    lemma_scripts_by_name(r.listing());
}

/// The stored scripts are as many as the listing holds.
proof fn lemma_scripts_by_name_len(s: Seq<StoredScript>)
    requires
        names_unique(s),
    ensures
        scripts_by_name(s).dom().finite(),
        scripts_by_name(s).dom().len() == s.len(),
    decreases s.len(),
{
    if s.len() > 0 {
        let p = s.drop_last();
        assert(names_unique(p));
        lemma_scripts_by_name_len(p);
        lemma_scripts_by_name(p);
        if scripts_by_name(p).dom().contains(s.last().name@) {
            let i = choose|i: int| 0 <= i < p.len() && p[i].name@ == s.last().name@;
            assert(s[i].name@ == s[s.len() - 1].name@);
        }
        assert(scripts_by_name(s).dom() =~= scripts_by_name(p).dom().insert(s.last().name@));
    } else {
        assert(scripts_by_name(s).dom() =~= Set::<Seq<char>>::empty());
    }
}

/// `list_tools` offers 4 + |S| tools for the set S of stored scripts, and
/// no tool name repeats.
pub proof fn lemma_tool_names_distinct(r: ToolRegistry, tools: Seq<ToolSpec>)
    requires
        r.wf(),
        lists_tools(tools, r.listing()),
    ensures
        tools.len() == 4 + r@.dom().len(),
        forall|i: int, j: int|
            0 <= i < tools.len() && 0 <= j < tools.len() && i != j ==> #[trigger] tools[i].name@
                != #[trigger] tools[j].name@,
{
    r.lemma_listing();
    lemma_scripts_by_name_len(r.listing());
    lemma_builtin_names_distinct();
    let l = r.listing();
    assert forall|i: int, j: int|
        0 <= i < tools.len() && 0 <= j < tools.len() && i != j implies #[trigger] tools[i].name@
            != #[trigger] tools[j].name@ by {
        if i >= 4 {
            lemma_script_tool_name(l[i - 4].name@);
            assert(tools[(i - 4) + 4].name@ == "script_"@ + l[i - 4].name@);
        }
        if j >= 4 {
            lemma_script_tool_name(l[j - 4].name@);
            assert(tools[(j - 4) + 4].name@ == "script_"@ + l[j - 4].name@);
        }
        if i >= 4 && j >= 4 && tools[i].name@ == tools[j].name@ {
            assert(l[i - 4].name@ == l[j - 4].name@);
        }
    }
}

/// Storing a new script and then removing it gives back the store and its
/// listing, and so the same tools, as before.
pub proof fn lemma_store_then_remove_restores_listing(
    r0: ToolRegistry,
    r1: ToolRegistry,
    r2: ToolRegistry,
    store_args: JsonValue,
    res1: Result<ToolStep, TerminalMcpError>,
    remove_args: JsonValue,
    res2: Result<ToolStep, TerminalMcpError>,
)
    requires
        r0.wf(),
        r1.wf(),
        tool_call_outcome(r0@, r1@, r0.listing(), "terminal_store_script"@, store_args, res1),
        listing_change(r0.listing(), r1.listing(), "terminal_store_script"@, store_args, res1),
        res1 is Ok,
        !r0@.dom().contains(str_field(store_args, "name"@).unwrap()),
        remove_args is Object,
        str_field(remove_args, "name"@) == str_field(store_args, "name"@),
        tool_call_outcome(r1@, r2@, r1.listing(), "terminal_remove_script"@, remove_args, res2),
        listing_change(r1.listing(), r2.listing(), "terminal_remove_script"@, remove_args, res2),
    ensures
        res2 is Ok,
        r2@ == r0@,
        r2.listing() == r0.listing(),
{
    lemma_store_then_remove_restores(
        r0@,
        r1@,
        r2@,
        r0.listing(),
        r1.listing(),
        store_args,
        res1,
        remove_args,
        res2,
    );
    r0.lemma_listing();
    r1.lemma_listing();
    let n = str_field(store_args, "name"@).unwrap();
    let l0 = r0.listing();
    let l1 = r1.listing();
    let l2 = r2.listing();
    if exists|i: int| 0 <= i < l0.len() && l0[i].name@ == n && l1[i].name@ == n && #[trigger] l0.update(i, l1[i]) == l1 {
        let i = choose|i: int| 0 <= i < l0.len() && l0[i].name@ == n && l1[i].name@ == n && #[trigger] l0.update(i, l1[i]) == l1;
        lemma_scripts_by_name(l0);
        assert(l0[i].name@ == n);
        assert(r0@.dom().contains(n));
    }
    assert(l1.drop_last() == l0 && l1.last().name@ == n);
    let i = choose|i: int| 0 <= i < l1.len() && l1[i].name@ == n && #[trigger] l1.remove(i) == l2;
    if i != l1.len() - 1 {
        assert(l1[i].name@ != l1[l1.len() - 1].name@);
    }
    assert(l1.remove(i) =~= l0);
}

/// A script name is accepted exactly when it is a non-empty run of ASCII
/// letters of either case, digits and underscores that is not the name of a
/// built-in tool.
pub proof fn lemma_script_name_accepted(n: Seq<char>)
    ensures
        script_name_problem(n) is None <==> {
            &&& n.len() > 0
            &&& forall|i: int|
                0 <= i < n.len() ==> ('a' <= #[trigger] n[i] && n[i] <= 'z') || ('A' <= n[i] && n[i] <= 'Z')
                    || ('0' <= n[i] && n[i] <= '9') || n[i] == '_'
            &&& n != "terminal_execute"@
            &&& n != "terminal_store_script"@
            &&& n != "terminal_remove_script"@
            &&& n != "terminal_list_scripts"@
        },
{
    lemma_script_tool_name(n);
}

/// The texts of an array whose items are all strings.
proof fn lemma_all_string_items(items: Seq<JsonValue>)
    requires
        forall|i: int| 0 <= i < items.len() ==> #[trigger] items[i] is Str,
    ensures
        crate::json::string_items(items) == items.map_values(|j: JsonValue| j->Str_0@),
    decreases items.len(),
{
    if items.len() > 0 {
        assert forall|i: int| 0 <= i < items.drop_first().len() implies #[trigger] items.drop_first()[i] is Str by {
            assert(items.drop_first()[i] == items[i + 1]);
        }
        lemma_all_string_items(items.drop_first());
        assert(items.map_values(|j: JsonValue| j->Str_0@) =~= seq![items[0]->Str_0@] + items.drop_first().map_values(
            |j: JsonValue| j->Str_0@,
        ));
    }
}

/// `terminal_execute` hands an `args` array of strings over, in order, as
/// the arguments of a command or as the positional parameters of a script
/// (`sh -s -- args...`); a call naming exactly one of `command` and
/// `script` (and no `stdin` with a script) is run in the mode it names.
pub proof fn lemma_execute_passes_args(
    before: Map<Seq<char>, StoredScript>,
    after: Map<Seq<char>, StoredScript>,
    listing: Seq<StoredScript>,
    args: JsonValue,
    res: Result<ToolStep, TerminalMcpError>,
    items: Seq<JsonValue>,
)
    requires
        tool_call_outcome(before, after, listing, "terminal_execute"@, args, res),
        args is Object,
        field(args, "args"@) matches Some(JsonValue::Array(v)) && v@ == items,
        forall|i: int| 0 <= i < items.len() ==> #[trigger] items[i] is Str,
        str_field(args, "script"@) is Some <==> str_field(args, "command"@) is None,
        str_field(args, "script"@) is Some ==> str_field(args, "stdin"@) is None,
    ensures
        after == before,
        res matches Ok(ToolStep::Run(p)) && match p.request@.mode {
            ModeView::Script { script, script_args, .. } => {
                &&& str_field(args, "script"@) == Some(script)
                &&& script_args == Some(items.map_values(|j: JsonValue| j->Str_0@))
            },
            ModeView::Command { command, args: a, .. } => {
                &&& str_field(args, "command"@) == Some(command)
                &&& a == Some(items.map_values(|j: JsonValue| j->Str_0@))
            },
        },
{
    lemma_all_string_items(items);
}

/// Storing a script whose required parameters are all supplied, calling its
/// tool runs that script (without positional parameters) in the working
/// directory and under the timeout and line limit that the call gives.
proof fn lemma_dynamic_env_ok(params: Seq<ScriptParameter>, args: JsonValue)
    requires
        forall|i: int| 0 <= i < params.len() && params[i].required ==> str_field(args, #[trigger] params[i].name@) is Some,
    ensures
        dynamic_env(params, args) is Ok,
    decreases params.len(),
{
    if params.len() > 0 {
        assert forall|i: int| 0 <= i < params.drop_first().len() && params.drop_first()[i].required implies str_field(
            args,
            #[trigger] params.drop_first()[i].name@,
        ) is Some by {
            assert(params.drop_first()[i] == params[i + 1]);
        }
        lemma_dynamic_env_ok(params.drop_first(), args);
        assert(params[0].required ==> str_field(args, params[0].name@) is Some);
    }
}

/// Calling the tool `script_<name>` of a stored script whose required
/// parameters are all supplied runs that script, with no positional
/// parameters and not detached, in the working directory and under the
/// timeout and line limit that the call gives, and changes no script.
pub proof fn lemma_dynamic_script_run(
    before: Map<Seq<char>, StoredScript>,
    after: Map<Seq<char>, StoredScript>,
    listing: Seq<StoredScript>,
    n: Seq<char>,
    args: JsonValue,
    res: Result<ToolStep, TerminalMcpError>,
)
    requires
        before.dom().contains(n),
        args is Object,
        forall|i: int|
            0 <= i < before[n].parameters@.len() && before[n].parameters@[i].required ==> str_field(
                args,
                #[trigger] before[n].parameters@[i].name@,
            ) is Some,
        tool_call_outcome(before, after, listing, "script_"@ + n, args, res),
    ensures
        after == before,
        res matches Ok(ToolStep::Run(p)) && {
            &&& p.request@.cwd == str_field(args, "cwd"@)
            &&& p.request@.timeout_secs == u64_field(args, "timeout_secs"@)
            &&& p.request@.max_lines == match u64_field(args, "max_lines"@) {
                Some(m) => Some(m as usize),
                None => None,
            }
            &&& !p.request@.detach
            &&& p.command_desc@ == "script_"@ + before[n].name@
            &&& p.request@.mode matches ModeView::Script { script, script_args, .. } && script == before[n].script@
                && script_args is None
        },
{
    lemma_script_tool_name(n);
    lemma_dynamic_env_ok(before[n].parameters@, args);
}

/// The words of a text are non-empty and hold no whitespace; a text that
/// ends in a non-whitespace character has at least one word.
proof fn lemma_words_clean(s: Seq<char>)
    ensures
        forall|k: int| 0 <= k < words(s).len() ==> (#[trigger] words(s)[k]).len() > 0,
        forall|k: int, j: int|
            0 <= k < words(s).len() && 0 <= j < words(s)[k].len() ==> !is_whitespace(#[trigger] words(s)[k][j]),
        s.len() > 0 && !is_whitespace(s.last()) ==> words(s).len() > 0,
    decreases s.len(),
{
    if s.len() > 0 {
        let p = s.drop_last();
        lemma_words_clean(p);
        if !is_whitespace(s.last()) && !(s.len() == 1 || is_whitespace(s[s.len() - 2])) {
            assert(p.last() == s[s.len() - 2]);
            let w = words(p);
            let u = w.update(w.len() - 1, w.last().push(s.last()));
            assert forall|k: int| 0 <= k < u.len() implies (#[trigger] u[k]).len() > 0 by {
                if k == w.len() - 1 {
                    assert(u[k].len() == w[k].len() + 1);
                }
            }
            assert forall|k: int, j: int| 0 <= k < u.len() && 0 <= j < u[k].len() implies !is_whitespace(
                #[trigger] u[k][j],
            ) by {
                if k == w.len() - 1 && j < w.last().len() {
                    assert(u[k][j] == w[k][j]);
                }
            }
        }
    }
}

/// Joining whitespace-free parts with single spaces leaves plain spaces as
/// the only whitespace.
proof fn lemma_join_words_clean(parts: Seq<Seq<char>>)
    requires
        forall|k: int, j: int| 0 <= k < parts.len() && 0 <= j < parts[k].len() ==> !is_whitespace(#[trigger] parts[k][j]),
    ensures
        forall|i: int|
            0 <= i < join_seqs(parts, seq![' ']).len() && is_whitespace(#[trigger] join_seqs(parts, seq![' '])[i])
                ==> join_seqs(parts, seq![' '])[i] == ' ',
    decreases parts.len(),
{
    if parts.len() > 1 {
        let p = parts.drop_last();
        assert forall|k: int, j: int| 0 <= k < p.len() && 0 <= j < p[k].len() implies !is_whitespace(#[trigger] p[k][j]) by {
            assert(p[k] == parts[k]);
        }
        lemma_join_words_clean(p);
        let a = join_seqs(p, seq![' ']);
        let t = a + seq![' '] + parts.last();
        assert forall|i: int| 0 <= i < t.len() && is_whitespace(#[trigger] t[i]) implies t[i] == ' ' by {
            if i < a.len() {
                assert(t[i] == a[i]);
            } else if i > a.len() {
                assert(t[i] == parts[parts.len() - 1][i - a.len() - 1]);
            }
        }
    } else if parts.len() == 1 {
        assert forall|i: int| 0 <= i < parts[0].len() && is_whitespace(#[trigger] parts[0][i]) implies parts[0][i] == ' ' by {
            assert(!is_whitespace(parts[0][i]));
        }
    }
}

/// A text without whitespace is its own only word.
proof fn lemma_words_of_plain(s: Seq<char>)
    requires
        forall|i: int| 0 <= i < s.len() ==> !is_whitespace(#[trigger] s[i]),
    ensures
        s.len() == 0 ==> words(s).len() == 0,
        s.len() > 0 ==> words(s) == seq![s],
    decreases s.len(),
{
    if s.len() > 0 {
        let p = s.drop_last();
        assert forall|i: int| 0 <= i < p.len() implies !is_whitespace(#[trigger] p[i]) by {
            assert(p[i] == s[i]);
        }
        lemma_words_of_plain(p);
        assert(!is_whitespace(s[s.len() - 1]));
        if s.len() == 1 {
            assert(seq![s.last()] =~= s);
        } else {
            assert(!is_whitespace(s[s.len() - 2]));
            assert(p.push(s.last()) =~= s);
            assert(seq![p].update(0, p.push(s.last())) =~= seq![s]);
        }
    }
}

/// A script preview is a single line whose only whitespace is plain spaces,
/// at most 80 characters and `…` long; a script without whitespace is shown
/// as it is, or as its first 80 characters followed by `…`.
pub proof fn lemma_preview_one_line(script: Seq<char>)
    ensures
        forall|i: int|
            0 <= i < preview_of(script).len() && is_whitespace(#[trigger] preview_of(script)[i]) ==> preview_of(
                script,
            )[i] == ' ',
        preview_of(script).len() <= 81,
        (forall|i: int| 0 <= i < script.len() ==> !is_whitespace(#[trigger] script[i])) ==> preview_of(script)
            == if script.len() <= 80 {
            script
        } else {
            script.take(80).push('\u{2026}')
        },
{
    lemma_words_clean(script);
    let w = words(script);
    lemma_join_words_clean(w);
    let c = join_seqs(w, seq![' ']);
    let p = preview_of(script);
    if c.len() > 80 {
        assert forall|i: int| 0 <= i < p.len() && is_whitespace(#[trigger] p[i]) implies p[i] == ' ' by {
            if i < 80 {
                assert(p[i] == c[i]);
            } else {
                assert(p[i] == '\u{2026}');
            }
        }
    }
    if forall|i: int| 0 <= i < script.len() ==> !is_whitespace(#[trigger] script[i]) {
        lemma_words_of_plain(script);
        if script.len() == 0 {
            assert(c.len() == 0);
        } else {
            assert(c == script);
        }
    }
}

} // verus!
