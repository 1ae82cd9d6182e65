//! Runtime configuration: explicit for tests, from environment settings in
//! the server.

use vstd::prelude::*;
use crate::json::owned;
use crate::models::{lookup, ModelMap};
use crate::text::{
    chars_of, push_str, same, split, split_on, split_once, split_once_chars, string_of, trim,
    trimmed, views, lemma_trim_idempotent,
};

verus! {

/// The bridge's configuration.
pub struct Config {
    /// The Bearer key that protects `/v1`.
    pub api_key: String,
    /// The Cursor CLI executable.
    pub agent_bin: String,
    /// The working directory of agent runs.
    pub workspace: String,
    /// Directory for the setup-complete flag and agent helper state.
    pub state_dir: String,
    /// Bridge model id used when the client omits `model`.
    pub default_model_id: String,
    /// Bridge model id to Cursor CLI `--model` value.
    pub models: ModelMap,
    /// Whether `/v1/models` also lists what `agent models` reports.
    pub discover_models: bool,
}

/// The settings the environment may give (`CURSOR_BRIDGE_*`, `HOME`), each
/// absent when unset.
pub struct EnvSettings {
    pub api_key: Option<String>,
    pub model_id: Option<String>,
    pub cursor_model: Option<String>,
    pub extra_models: Option<String>,
    pub discover_models: Option<String>,
    pub home: Option<String>,
    pub state_dir: Option<String>,
    pub agent_bin: Option<String>,
    pub workspace: Option<String>,
}

/// The value, or `default` when absent.
pub open spec fn or_default(v: Option<String>, default: Seq<char>) -> Seq<char> {
    match v {
        Some(s) => s@,
        None => default,
    }
}

/// The `(id, cursor model)` one comma-separated piece of
/// `CURSOR_BRIDGE_EXTRA_MODELS` names: `id:model`, both trimmed and non-blank.
pub open spec fn extra_model_piece(piece: Seq<char>) -> Option<(Seq<char>, Seq<char>)> {
    let p = trim(piece);
    if p.len() == 0 {
        None
    } else {
        match split_once(p, ":"@) {
            None => None,
            Some((a, b)) => if trim(a).len() > 0 && trim(b).len() > 0 {
                Some((trim(a), trim(b)))
            } else {
                None
            },
        }
    }
}

/// The pairs that `pieces` name, in order.
pub open spec fn extra_pairs_of(pieces: Seq<Seq<char>>) -> Seq<(Seq<char>, Seq<char>)>
    decreases pieces.len(),
{
    if pieces.len() == 0 {
        Seq::empty()
    } else {
        extra_pairs_of(pieces.drop_last()) + match extra_model_piece(pieces.last()) {
            Some(p) => seq![p],
            None => Seq::empty(),
        }
    }
}

/// The pairs `CURSOR_BRIDGE_EXTRA_MODELS` lists (`id:model,id:model`).
pub open spec fn extra_model_pairs(s: Seq<char>) -> Seq<(Seq<char>, Seq<char>)> {
    extra_pairs_of(split(s, ','))
}

/// `m` with each pair stored in turn, later pairs replacing earlier ones.
pub open spec fn with_pairs(m: Map<Seq<char>, Seq<char>>, pairs: Seq<(Seq<char>, Seq<char>)>) -> Map<Seq<char>, Seq<char>>
    decreases pairs.len(),
{
    if pairs.len() == 0 {
        m
    } else {
        with_pairs(m, pairs.drop_last()).insert(pairs.last().0, pairs.last().1)
    }
}

/// Discovery is on unless the setting, trimmed, is `0`.
pub open spec fn discovery_on(v: Option<String>) -> bool {
    match v {
        Some(s) => trim(s@) != "0"@,
        None => true,
    }
}

/// `dir` joined with the relative file name `name`, as `Path::join` joins.
pub open spec fn path_join(dir: Seq<char>, name: Seq<char>) -> Seq<char> {
    if dir.len() == 0 {
        name
    } else if dir.last() == '/' {
        dir + name
    } else {
        dir + seq!['/'] + name
    }
}

/// The model id to look up: the requested one, or the default when empty.
pub open spec fn model_key(default_id: Seq<char>, requested: Seq<char>) -> Seq<char> {
    if requested.len() == 0 {
        default_id
    } else {
        requested
    }
}

/// The pairs that `CURSOR_BRIDGE_EXTRA_MODELS` lists.
pub fn parse_extra_models(s: &str) -> (res: Vec<(String, String)>)
    ensures
        crate::text::pair_views(res@) == extra_model_pairs(s@),
{
    let cs = chars_of(s);
    let pieces = split_on(cs.as_slice(), ',');
    let colon = chars_of(":");
    let mut out: Vec<(String, String)> = Vec::new();
    let mut i: usize = 0;
    while i < pieces.len()
        invariant
            i <= pieces@.len(),
            views(pieces@) == split(s@, ','),
            colon@ == ":"@,
            crate::text::pair_views(out@) == extra_pairs_of(views(pieces@).take(i as int)),
        decreases pieces@.len() - i,
    {
        let ghost prev = out@;
        let p = trimmed(pieces[i].as_slice());
        assert(views(pieces@).take(i + 1).drop_last() =~= views(pieces@).take(i as int));
        assert(views(pieces@).take(i + 1).last() == pieces@[i as int]@);
        if p.len() > 0 {
            match split_once_chars(p.as_slice(), colon.as_slice()) {
                Some((a, b)) => {
                    let id = trimmed(a.as_slice());
                    let model = trimmed(b.as_slice());
                    if id.len() > 0 && model.len() > 0 {
                        out.push((string_of(id.as_slice()), string_of(model.as_slice())));
                    }
                },
                None => {},
            }
        }
        assert(crate::text::pair_views(out@) =~= extra_pairs_of(views(pieces@).take(i + 1)));
        i = i + 1;
    }
    assert(views(pieces@).take(pieces@.len() as int) =~= views(pieces@));
    out
}

fn value_or(v: &Option<String>, default: &str) -> (res: String)
    ensures
        res@ == or_default(*v, default@),
{
    match v {
        Some(s) => s.clone(),
        None => owned(default),
    }
}

impl Config {
    /// Deterministic configuration for tests: key `test-bridge-key`, binary
    /// `agent`, the current directory, `cursor-auto` mapped to `default`, no
    /// discovery.
    pub fn test_default() -> (res: Config)
        ensures
            res.api_key@ == "test-bridge-key"@,
            res.agent_bin@ == "agent"@,
            res.workspace@ == "."@,
            res.state_dir@ == "."@,
            res.default_model_id@ == "cursor-auto"@,
            res.models.as_map() == map!["cursor-auto"@ => "default"@],
            !res.discover_models,
    {
        let mut models = ModelMap::new();
        models.insert(owned("cursor-auto"), owned("default"));
        assert(models.as_map() =~= map!["cursor-auto"@ => "default"@]);
        Config {
            api_key: owned("test-bridge-key"),
            agent_bin: owned("agent"),
            workspace: owned("."),
            state_dir: owned("."),
            default_model_id: owned("cursor-auto"),
            models,
            discover_models: false,
        }
    }

    /// The configuration the environment settings describe. Unset values
    /// default to: empty key, model id `cursor-auto` mapped to Cursor model
    /// `default`, binary `agent`, workspace `./workspace`, state in `HOME`
    /// (else `/home/bridge`), discovery on. Extra models are stored after the
    /// default one, a later id replacing an earlier one.
    pub fn from_settings(env: &EnvSettings) -> (res: Config)
        ensures
            res.api_key@ == or_default(env.api_key, Seq::empty()),
            res.default_model_id@ == or_default(env.model_id, "cursor-auto"@),
            res.models.as_map() == with_pairs(
                map![res.default_model_id@ => or_default(env.cursor_model, "default"@)],
                match env.extra_models {
                    Some(x) => extra_model_pairs(x@),
                    None => Seq::empty(),
                },
            ),
            res.agent_bin@ == or_default(env.agent_bin, "agent"@),
            res.workspace@ == or_default(env.workspace, "./workspace"@),
            res.state_dir@ == (match env.state_dir {
                Some(d) => d@,
                None => or_default(env.home, "/home/bridge"@),
            }),
            res.discover_models == discovery_on(env.discover_models),
    {
        let api_key = match &env.api_key {
            Some(k) => k.clone(),
            None => String::new(),
        };
        let default_model_id = value_or(&env.model_id, "cursor-auto");
        let default_cursor = value_or(&env.cursor_model, "default");
        let mut models = ModelMap::new();
        models.insert(default_model_id.clone(), default_cursor);
        let ghost base = models.as_map();
        assert(base =~= map![default_model_id@ => or_default(env.cursor_model, "default"@)]);
        let extra: Vec<(String, String)> = match &env.extra_models {
            Some(x) => parse_extra_models(x.as_str()),
            None => Vec::new(),
        };
        let ghost pairs = crate::text::pair_views(extra@);
        let mut i: usize = 0;
        while i < extra.len()
            invariant
                i <= extra@.len(),
                pairs == crate::text::pair_views(extra@),
                models.as_map() == with_pairs(base, pairs.take(i as int)),
            decreases extra@.len() - i,
        {
            let (id, cursor) = (extra[i].0.clone(), extra[i].1.clone());
            models.insert(id, cursor);
            assert(pairs.take(i + 1).drop_last() =~= pairs.take(i as int));
            i = i + 1;
        }
        assert(pairs.take(extra@.len() as int) =~= pairs);
        proof {
            if env.extra_models is None {
                assert(pairs =~= Seq::<(Seq<char>, Seq<char>)>::empty());
            }
        }
        let state_dir = match &env.state_dir {
            Some(d) => d.clone(),
            None => value_or(&env.home, "/home/bridge"),
        };
        let discover_models = match &env.discover_models {
            Some(v) => {
                let t = trimmed(chars_of(v.as_str()).as_slice());
                !same(t.as_slice(), chars_of("0").as_slice())
            },
            None => true,
        };
        Config {
            api_key,
            agent_bin: value_or(&env.agent_bin, "agent"),
            workspace: value_or(&env.workspace, "./workspace"),
            state_dir,
            default_model_id,
            models,
            discover_models,
        }
    }

    /// The path of the flag file that marks setup as complete.
    pub fn setup_complete_flag(&self) -> (res: String)
        ensures
            res@ == path_join(self.state_dir@, ".cursor-bridge-setup-complete"@),
    {
        let mut out = self.state_dir.clone();
        let d = chars_of(self.state_dir.as_str());
        if d.len() > 0 && d[d.len() - 1] != '/' {
            out.push('/');
        }
        push_str(&mut out, ".cursor-bridge-setup-complete");
        out
    }

    /// The Cursor model for a requested bridge model id (the default id when
    /// the request names none).
    pub fn resolve_model(&self, requested: &str) -> (res: Option<&str>)
        ensures
            match res {
                Some(v) => lookup(self.models@, model_key(self.default_model_id@, requested@))
                    == Some(v@),
                None => lookup(self.models@, model_key(self.default_model_id@, requested@)) is None,
            },
    {
        let key = if requested.is_empty() {
            self.default_model_id.as_str()
        } else {
            requested
        };
        match self.models.get(key) {
            Some(v) => Some(v.as_str()),
            None => None,
        }
    }

    /// The bridge model id used when a request names none.
    pub fn default_model_id(&self) -> (res: &str)
        ensures
            res@ == self.default_model_id@,
    {
        self.default_model_id.as_str()
    }
}


/// The configured default id always stays allowed: extra models add ids or
/// change the Cursor model behind one, but never remove one.
pub proof fn law_default_model_stays(default_id: Seq<char>, cursor: Seq<char>, pairs: Seq<(Seq<char>, Seq<char>)>)
    ensures
        with_pairs(map![default_id => cursor], pairs).contains_key(default_id),
    decreases pairs.len(),
{
    if pairs.len() > 0 {
        law_default_model_stays(default_id, cursor, pairs.drop_last());
    }
}

/// Every extra model entry names a non-blank id and Cursor model, each
/// already trimmed of surrounding whitespace.
pub proof fn law_extra_models_non_blank(s: Seq<char>, i: int)
    requires
        0 <= i < extra_model_pairs(s).len(),
    ensures
        extra_model_pairs(s)[i].0.len() > 0,
        extra_model_pairs(s)[i].1.len() > 0,
        trim(extra_model_pairs(s)[i].0) == extra_model_pairs(s)[i].0,
        trim(extra_model_pairs(s)[i].1) == extra_model_pairs(s)[i].1,
{
    lemma_extra_pairs_non_blank(split(s, ','), i);
}

proof fn lemma_extra_pairs_non_blank(pieces: Seq<Seq<char>>, i: int)
    requires
        0 <= i < extra_pairs_of(pieces).len(),
    ensures
        extra_pairs_of(pieces)[i].0.len() > 0,
        extra_pairs_of(pieces)[i].1.len() > 0,
        trim(extra_pairs_of(pieces)[i].0) == extra_pairs_of(pieces)[i].0,
        trim(extra_pairs_of(pieces)[i].1) == extra_pairs_of(pieces)[i].1,
    decreases pieces.len(),
{
    if pieces.len() > 0 {
        let prev = extra_pairs_of(pieces.drop_last());
        if i < prev.len() {
            lemma_extra_pairs_non_blank(pieces.drop_last(), i);
        } else {
            let p = trim(pieces.last());
            if let Some((a, b)) = split_once(p, ":"@) {
                lemma_trim_idempotent(a);
                lemma_trim_idempotent(b);
            }
        }
    }
}

} // verus!
