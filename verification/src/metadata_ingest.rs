//! Merging match metadata from the recorder's storage and logs into one entry per match, and
//! the small rules that turn a merged match into database rows.
use vstd::prelude::*;

use crate::display_names::{
    agent_name, agent_name_chars, avatar_agent, avatar_agent_chars, game_mode_chars,
    game_mode_name, map_name, map_name_chars, player_name, player_name_chars,
};
use crate::highlight_log_parser::{
    assoc_index, assoc_set, kill_events_view, opt_int, HighlightLogKillEvent, HighlightLogLineKind, HighlightLogRecord,
    KillEventView,
};
use crate::leveldb_reader::LevelDbBattleRecord;
use crate::text::{
    chars_of, concat, contains, contains_exec, digit_prefix, digit_prefix_exec, ends_with,
    ends_with_exec, eq_ic, eq_ignore_case, find, find_at, lower_seq, opt_chars, opt_string,
    opt_to_string, parse_i64, parse_i64_exec, slice, string_of, to_lower, trim, trim_exec,
    trim_str,
};

verus! {

// ---------------------------------------------------------------------------------------------
// Record sources and group keys
// ---------------------------------------------------------------------------------------------

/// `s` cut at every `c`.
pub open spec fn split_on(s: Seq<char>, c: char) -> Seq<Seq<char>>
    decreases s.len(),
{
    if s.len() == 0 {
        seq![seq![]]
    } else {
        let r = split_on(s.drop_last(), c);
        if s.last() == c {
            r.push(seq![])
        } else {
            r.update(r.len() - 1, r.last().push(s.last()))
        }
    }
}

proof fn lemma_split_on_nonempty(s: Seq<char>, c: char)
    ensures
        split_on(s, c).len() >= 1,
    decreases s.len(),
{
    if s.len() > 0 {
        lemma_split_on_nonempty(s.drop_last(), c);
    }
}

pub open spec fn vecs_of(v: Seq<Vec<char>>) -> Seq<Seq<char>> {
    v.map_values(|x: Vec<char>| x@)
}

pub fn split_on_exec(v: &Vec<char>, c: char) -> (res: Vec<Vec<char>>)
    ensures
        vecs_of(res@) == split_on(v@, c),
{
    let mut parts: Vec<Vec<char>> = Vec::new();
    let mut current: Vec<char> = Vec::new();
    let mut i: usize = 0;
    while i < v.len()
        invariant
            i <= v@.len(),
            vecs_of(parts@).push(current@) == split_on(v@.take(i as int), c),
        decreases v.len() - i,
    {
        assert(v@.take(i + 1).drop_last() =~= v@.take(i as int));
        proof {
            lemma_split_on_nonempty(v@.take(i as int), c);
        }
        let x = v[i];
        if x == c {
            let done = current;
            parts.push(done);
            current = Vec::new();
            assert(vecs_of(parts@).push(current@) =~= split_on(v@.take(i as int), c).push(seq![]));
        } else {
            let ghost before = current@;
            current.push(x);
            assert(vecs_of(parts@).push(current@) =~= split_on(v@.take(i as int), c).update(
                vecs_of(parts@).len() as int,
                before.push(x),
            ));
        }
        i = i + 1;
    }
    assert(v@.take(i as int) =~= v@);
    let ghost before = vecs_of(parts@);
    parts.push(current);
    assert(vecs_of(parts@) =~= before.push(current@));
    parts
}

/// The trimmed, non-empty parts of a path, in order.
pub open spec fn path_parts(parts: Seq<Seq<char>>) -> Seq<Seq<char>>
    decreases parts.len(),
{
    if parts.len() == 0 {
        seq![]
    } else {
        let rest = path_parts(parts.drop_last());
        let t = trim(parts.last());
        if t.len() == 0 {
            rest
        } else {
            rest.push(t)
        }
    }
}

/// The clip-group key of a recorded video's path: its directory when the path names an
/// `.mp4` file, else its last part; never empty and never the shared `record` directory.
pub open spec fn group_key_of(record_src: Seq<char>) -> Option<Seq<char>> {
    let parts = path_parts(split_on(record_src, '/'));
    if parts.len() == 0 {
        None
    } else {
        let leaf = parts.last();
        let key = if ends_with(lower_seq(leaf), ".mp4"@) {
            if parts.len() >= 2 {
                Some(parts[parts.len() - 2])
            } else {
                None
            }
        } else {
            Some(leaf)
        };
        match key {
            Some(k) => if k.len() == 0 || eq_ic(k, "record"@) {
                None
            } else {
                Some(k)
            },
            None => None,
        }
    }
}

pub fn record_src_group_key(record_src: &str) -> (res: Option<String>)
    ensures
        opt_string(res) == group_key_of(record_src@),
{
    let split = split_on_exec(&chars_of(record_src), '/');
    let mut parts: Vec<Vec<char>> = Vec::new();
    let mut i: usize = 0;
    assert(vecs_of(parts@) =~= path_parts(vecs_of(split@).take(0)));
    while i < split.len()
        invariant
            i <= split@.len(),
            vecs_of(parts@) == path_parts(vecs_of(split@).take(i as int)),
        decreases split.len() - i,
    {
        assert(vecs_of(split@).take(i + 1).drop_last() =~= vecs_of(split@).take(i as int));
        let t = trim_exec(&split[i]);
        if t.len() > 0 {
            let ghost before = vecs_of(parts@);
            parts.push(t);
            assert(vecs_of(parts@) =~= before.push(t@));
        }
        i = i + 1;
    }
    assert(vecs_of(split@).take(i as int) =~= vecs_of(split@));
    let n = parts.len();
    if n == 0 {
        return None;
    }
    let leaf = &parts[n - 1];
    let key: &Vec<char> = if ends_with_exec(&to_lower(leaf), &chars_of(".mp4")) {
        if n >= 2 {
            &parts[n - 2]
        } else {
            return None;
        }
    } else {
        leaf
    };
    if key.len() == 0 || eq_ignore_case(key, &chars_of("record")) {
        None
    } else {
        Some(string_of(key))
    }
}

/// The account id that a record's video source names: the digits right after
/// `wonderfulVideos`.
pub open spec fn account_of_source(record_src: Option<Seq<char>>) -> Option<Seq<char>> {
    match record_src {
        None => None,
        Some(src) => match find(src, "wonderfulVideos"@) {
            None => None,
            Some(i) => {
                let d = digit_prefix(src.skip(i + "wonderfulVideos"@.len()));
                if d.len() == 0 {
                    None
                } else {
                    Some(d)
                }
            },
        },
    }
}

pub fn account_id_from_record_src(record: &HighlightLogRecord) -> (res: Option<String>)
    ensures
        opt_string(res) == account_of_source(opt_string(record.record_src)),
{
    let src = match &record.record_src {
        Some(s) => chars_of(s.as_str()),
        None => return None,
    };
    let marker = chars_of("wonderfulVideos");
    match find_at(&src, &marker, 0) {
        None => None,
        Some(i) => {
            let ml = marker.len();
            assert(i + ml <= src.len());
            let d = digit_prefix_exec(&src, i + ml);
            if d.len() == 0 {
                None
            } else {
                Some(string_of(&d))
            }
        },
    }
}

// ---------------------------------------------------------------------------------------------
// Statistics
// ---------------------------------------------------------------------------------------------

/// How many times `c` occurs in `s`.
pub open spec fn occurrences(s: Seq<char>, c: char) -> nat
    decreases s.len(),
{
    if s.len() == 0 {
        0
    } else {
        occurrences(s.drop_last(), c) + if s.last() == c { 1nat } else { 0nat }
    }
}

proof fn lemma_split_len(s: Seq<char>, c: char)
    ensures
        split_on(s, c).len() == occurrences(s, c) + 1,
    decreases s.len(),
{
    if s.len() > 0 {
        lemma_split_len(s.drop_last(), c);
    }
}

pub open spec fn opt_parse(s: Seq<char>) -> Option<int> {
    parse_i64(trim(s))
}

/// Kills, deaths and assists of a `k/d/a` text with exactly three parts.
pub open spec fn kda_parts(kda: Option<Seq<char>>) -> (Option<int>, Option<int>, Option<int>) {
    match kda {
        None => (None, None, None),
        Some(k) => {
            let parts = split_on(k, '/');
            if parts.len() != 3 {
                (None, None, None)
            } else {
                (opt_parse(parts[0]), opt_parse(parts[1]), opt_parse(parts[2]))
            }
        },
    }
}

fn parse_part(v: &Vec<char>) -> (res: Option<i64>)
    ensures
        opt_int(res) == opt_parse(v@),
{
    parse_i64_exec(&trim_exec(v))
}

pub fn parse_kda(kda: Option<&str>) -> (res: (Option<i64>, Option<i64>, Option<i64>))
    ensures
        (opt_int(res.0), opt_int(res.1), opt_int(res.2)) == kda_parts(match kda {
            Some(k) => Some(k@),
            None => None,
        }),
{
    let k = match kda {
        Some(k) => k,
        None => return (None, None, None),
    };
    let parts = split_on_exec(&chars_of(k), '/');
    if parts.len() != 3 {
        return (None, None, None);
    }
    (parse_part(&parts[0]), parse_part(&parts[1]), parse_part(&parts[2]))
}

/// Rounds won and lost of a `won/lost` text with exactly two parts.
pub open spec fn scoreline_parts(scoreline: Option<Seq<char>>) -> (Option<int>, Option<int>) {
    match scoreline {
        None => (None, None),
        Some(s) => {
            let parts = split_on(s, '/');
            if parts.len() != 2 {
                (None, None)
            } else {
                (opt_parse(parts[0]), opt_parse(parts[1]))
            }
        },
    }
}

pub fn parse_scoreline(scoreline: Option<&str>) -> (res: (Option<i64>, Option<i64>))
    ensures
        (opt_int(res.0), opt_int(res.1)) == scoreline_parts(match scoreline {
            Some(s) => Some(s@),
            None => None,
        }),
{
    let s = match scoreline {
        Some(s) => s,
        None => return (None, None),
    };
    let parts = split_on_exec(&chars_of(s), '/');
    if parts.len() != 2 {
        return (None, None);
    }
    (parse_part(&parts[0]), parse_part(&parts[1]))
}

/// Rounds played: won plus lost, when both are known (and the sum fits).
pub fn rounds_played(won: Option<i64>, lost: Option<i64>) -> (res: Option<i64>)
    ensures
        match (won, lost) {
            (Some(w), Some(l)) => if i64::MIN <= w + l <= i64::MAX {
                res == Some((w + l) as i64)
            } else {
                res is None
            },
            _ => res is None,
        },
{
    match (won, lost) {
        (Some(w), Some(l)) => w.checked_add(l),
        _ => None,
    }
}

pub fn bool_to_integer(value: bool) -> (res: i64)
    ensures
        res == if value { 1int } else { 0int },
{
    if value {
        1
    } else {
        0
    }
}

/// Kill events of round 0 (before the match starts) are not stored.
pub open spec fn recordable(events: Seq<KillEventView>) -> Seq<KillEventView> {
    events.filter(|e: KillEventView| e.round_id != Some(0int))
}

// ---------------------------------------------------------------------------------------------
// Merged matches
// ---------------------------------------------------------------------------------------------

/// One match as the sources describe it together.
pub struct MergedMatch {
    pub match_id: Option<String>,
    pub battle_id: Option<String>,
    pub account_id: Option<String>,
    pub record_src: Option<String>,
    pub player_name: Option<String>,
    pub agent_name: Option<String>,
    pub agent_avatar_url: Option<String>,
    pub map_id: Option<String>,
    pub map_name: Option<String>,
    pub game_mode: Option<String>,
    pub started_at: Option<String>,
    pub kda: Option<String>,
    pub scoreline: Option<String>,
    pub has_won: Option<bool>,
    pub combat_score: Option<i64>,
    pub kill_events: Vec<HighlightLogKillEvent>,
    pub source_leveldb: bool,
    pub source_log: bool,
}

/// A merged match's fields as values.
pub struct MergedView {
    pub match_id: Option<Seq<char>>,
    pub battle_id: Option<Seq<char>>,
    pub account_id: Option<Seq<char>>,
    pub record_src: Option<Seq<char>>,
    pub player_name: Option<Seq<char>>,
    pub agent_name: Option<Seq<char>>,
    pub agent_avatar_url: Option<Seq<char>>,
    pub map_id: Option<Seq<char>>,
    pub map_name: Option<Seq<char>>,
    pub game_mode: Option<Seq<char>>,
    pub started_at: Option<Seq<char>>,
    pub kda: Option<Seq<char>>,
    pub scoreline: Option<Seq<char>>,
    pub has_won: Option<bool>,
    pub combat_score: Option<int>,
    pub kill_events: Seq<KillEventView>,
    pub source_leveldb: bool,
    pub source_log: bool,
}

impl MergedMatch {
    pub open spec fn view(&self) -> MergedView {
        MergedView {
            match_id: opt_string(self.match_id),
            battle_id: opt_string(self.battle_id),
            account_id: opt_string(self.account_id),
            record_src: opt_string(self.record_src),
            player_name: opt_string(self.player_name),
            agent_name: opt_string(self.agent_name),
            agent_avatar_url: opt_string(self.agent_avatar_url),
            map_id: opt_string(self.map_id),
            map_name: opt_string(self.map_name),
            game_mode: opt_string(self.game_mode),
            started_at: opt_string(self.started_at),
            kda: opt_string(self.kda),
            scoreline: opt_string(self.scoreline),
            has_won: self.has_won,
            combat_score: opt_int(self.combat_score),
            kill_events: kill_events_view(self.kill_events@),
            source_leveldb: self.source_leveldb,
            source_log: self.source_log,
        }
    }

    pub fn empty() -> (res: Self)
        ensures
            res@ == empty_view(),
    {
        let res = MergedMatch {
            match_id: None,
            battle_id: None,
            account_id: None,
            record_src: None,
            player_name: None,
            agent_name: None,
            agent_avatar_url: None,
            map_id: None,
            map_name: None,
            game_mode: None,
            started_at: None,
            kda: None,
            scoreline: None,
            has_won: None,
            combat_score: None,
            kill_events: Vec::new(),
            source_leveldb: false,
            source_log: false,
        };
        assert(kill_events_view(res.kill_events@) =~= Seq::<KillEventView>::empty());
        res
    }
}

pub open spec fn empty_view() -> MergedView {
    MergedView {
        match_id: None,
        battle_id: None,
        account_id: None,
        record_src: None,
        player_name: None,
        agent_name: None,
        agent_avatar_url: None,
        map_id: None,
        map_name: None,
        game_mode: None,
        started_at: None,
        kda: None,
        scoreline: None,
        has_won: None,
        combat_score: None,
        kill_events: seq![],
        source_leveldb: false,
        source_log: false,
    }
}

/// A trimmed text, absent when empty.
pub open spec fn present(v: Option<Seq<char>>) -> Option<Seq<char>> {
    match v {
        Some(t) => if trim(t).len() == 0 {
            None
        } else {
            Some(trim(t))
        },
        None => None,
    }
}

/// How a value is turned into a display value before it is stored.
#[derive(Debug, Clone, Copy, PartialEq, Eq, Structural)]
pub enum Display {
    Text,
    Player,
    Agent,
    MapName,
    Mode,
}

/// A player name is kept only with its tag.
pub open spec fn tagged_player_name(v: Seq<char>) -> Option<Seq<char>> {
    match player_name(v) {
        Some(p) => if contains(p, "#"@) {
            Some(p)
        } else {
            None
        },
        None => None,
    }
}

pub open spec fn displayed(d: Display, v: Option<Seq<char>>) -> Option<Seq<char>> {
    match d {
        Display::Text => present(v),
        _ => match v {
            None => None,
            Some(t) => match d {
                Display::Player => tagged_player_name(t),
                Display::Agent => agent_name(t),
                Display::MapName => map_name(t),
                _ => game_mode_name(t),
            },
        },
    }
}

/// Fills an empty field.
pub open spec fn merged_field(target: Option<Seq<char>>, value: Option<Seq<char>>, d: Display) -> Option<Seq<char>> {
    if target is Some {
        target
    } else {
        displayed(d, value)
    }
}

/// Overwrites a field with a usable value.
pub open spec fn replaced_field(target: Option<Seq<char>>, value: Option<Seq<char>>, d: Display) -> Option<Seq<char>> {
    match displayed(d, value) {
        Some(v) => Some(v),
        None => target,
    }
}

fn displayed_exec(d: Display, v: &Option<String>) -> (res: Option<String>)
    ensures
        opt_string(res) == displayed(d, opt_string(*v)),
{
    let t = match v {
        Some(t) => chars_of(t.as_str()),
        None => return None,
    };
    match d {
        Display::Text => {
            let tt = trim_exec(&t);
            if tt.len() == 0 {
                None
            } else {
                Some(string_of(&tt))
            }
        },
        Display::Player => match player_name_chars(&t) {
            Some(p) => if contains_exec(&p, &chars_of("#")) {
                Some(string_of(&p))
            } else {
                None
            },
            None => None,
        },
        Display::Agent => opt_to_string(agent_name_chars(&t)),
        Display::MapName => opt_to_string(map_name_chars(&t)),
        Display::Mode => opt_to_string(game_mode_chars(&t)),
    }
}

fn merge_into(target: &mut Option<String>, value: &Option<String>, d: Display)
    ensures
        opt_string(*final(target)) == merged_field(opt_string(*old(target)), opt_string(*value), d),
{
    if target.is_none() {
        *target = displayed_exec(d, value);
    }
}

fn replace_into(target: &mut Option<String>, value: &Option<String>, d: Display)
    ensures
        opt_string(*final(target)) == replaced_field(opt_string(*old(target)), opt_string(*value), d),
{
    let v = displayed_exec(d, value);
    if v.is_some() {
        *target = v;
    }
}

fn copy_opt(o: &Option<String>) -> (res: Option<String>)
    ensures
        opt_string(res) == opt_string(*o),
{
    match o {
        Some(t) => Some(t.clone()),
        None => None,
    }
}

fn copy_kill_event(e: &HighlightLogKillEvent) -> (res: HighlightLogKillEvent)
    ensures
        res@ == e@,
{
    HighlightLogKillEvent {
        event_time: copy_opt(&e.event_time),
        round_id: e.round_id,
        weapon_name: copy_opt(&e.weapon_name),
        killer_name: copy_opt(&e.killer_name),
        killed_name: copy_opt(&e.killed_name),
        raw_json: copy_opt(&e.raw_json),
    }
}

/// What a storage record adds to its match.
pub open spec fn battle_step(m: MergedView, b: LevelDbBattleRecord) -> MergedView {
    let avatar = match opt_string(b.agent_avatar_url) {
        Some(u) => avatar_agent(u),
        None => None,
    };
    MergedView {
        source_leveldb: true,
        match_id: merged_field(m.match_id, opt_string(b.match_id), Display::Text),
        battle_id: merged_field(m.battle_id, opt_string(b.battle_id), Display::Text),
        account_id: merged_field(m.account_id, Some(b.account_id@), Display::Text),
        player_name: merged_field(m.player_name, opt_string(b.player_name), Display::Player),
        agent_avatar_url: merged_field(m.agent_avatar_url, opt_string(b.agent_avatar_url), Display::Text),
        agent_name: match avatar {
            Some(a) => merged_field(m.agent_name, Some(a), Display::Agent),
            None => m.agent_name,
        },
        kda: if b.kda is Some {
            opt_string(b.kda)
        } else {
            m.kda
        },
        started_at: if b.match_date is Some {
            opt_string(b.match_date)
        } else {
            m.started_at
        },
        ..m
    }
}

fn apply_battle(m: &mut MergedMatch, b: &LevelDbBattleRecord)
    ensures
        final(m)@ == battle_step(old(m)@, *b),
{
    m.source_leveldb = true;
    merge_into(&mut m.match_id, &b.match_id, Display::Text);
    merge_into(&mut m.battle_id, &b.battle_id, Display::Text);
    merge_into(&mut m.account_id, &Some(b.account_id.clone()), Display::Text);
    merge_into(&mut m.player_name, &b.player_name, Display::Player);
    merge_into(&mut m.agent_avatar_url, &b.agent_avatar_url, Display::Text);
    let avatar = match &b.agent_avatar_url {
        Some(u) => opt_to_string(avatar_agent_chars(&chars_of(u.as_str()))),
        None => None,
    };
    if avatar.is_some() {
        merge_into(&mut m.agent_name, &avatar, Display::Agent);
    }
    if b.kda.is_some() {
        m.kda = copy_opt(&b.kda);
    }
    if b.match_date.is_some() {
        m.started_at = copy_opt(&b.match_date);
    }
}

/// The record's video source names the match by one of its ids.
pub open spec fn src_matches_identity(r: HighlightLogRecord) -> bool {
    match opt_string(r.record_src) {
        None => false,
        Some(src) => match group_key_of(src) {
            None => false,
            Some(k) => opt_string(r.match_id) == Some(k) || opt_string(r.battle_id) == Some(k),
        },
    }
}

pub fn record_src_matches_identity(r: &HighlightLogRecord) -> (res: bool)
    ensures
        res == src_matches_identity(*r),
{
    let key = match &r.record_src {
        Some(src) => record_src_group_key(src.as_str()),
        None => return false,
    };
    let k = match key {
        Some(k) => chars_of(k.as_str()),
        None => return false,
    };
    let m = match &r.match_id {
        Some(id) => crate::text::seq_eq(&chars_of(id.as_str()), &k),
        None => false,
    };
    let b = match &r.battle_id {
        Some(id) => crate::text::seq_eq(&chars_of(id.as_str()), &k),
        None => false,
    };
    m || b
}

pub open spec fn is_response_kind(k: HighlightLogLineKind) -> bool {
    k == HighlightLogLineKind::BattleListResponse || k == HighlightLogLineKind::PostSnapshot
}

/// A record with a scoreline, or from a battle-list or snapshot response, summarises a whole match.
pub open spec fn full_match_summary(r: HighlightLogRecord) -> bool {
    r.scoreline is Some || is_response_kind(r.line_kind)
}

pub fn record_has_full_match_summary(r: &HighlightLogRecord) -> (res: bool)
    ensures
        res == full_match_summary(*r),
{
    r.scoreline.is_some() || matches!(r.line_kind, HighlightLogLineKind::BattleListResponse | HighlightLogLineKind::PostSnapshot)
}

/// The match fields that a log record sets: overwriting them when the record is authoritative,
/// filling only empty ones otherwise.
pub open spec fn record_fields(m: MergedView, r: HighlightLogRecord, authoritative: bool) -> MergedView {
    let map_value = match opt_string(r.map_name) {
        Some(n) => Some(n),
        None => opt_string(r.map_id),
    };
    if authoritative {
        MergedView {
            player_name: replaced_field(m.player_name, opt_string(r.player_name), Display::Player),
            agent_name: replaced_field(m.agent_name, opt_string(r.agent_name), Display::Agent),
            map_id: replaced_field(m.map_id, opt_string(r.map_id), Display::Text),
            map_name: replaced_field(m.map_name, map_value, Display::MapName),
            game_mode: replaced_field(m.game_mode, opt_string(r.game_mode), Display::Mode),
            kda: replaced_field(m.kda, opt_string(r.kda), Display::Text),
            scoreline: replaced_field(m.scoreline, opt_string(r.scoreline), Display::Text),
            ..m
        }
    } else {
        MergedView {
            player_name: merged_field(m.player_name, opt_string(r.player_name), Display::Player),
            agent_name: merged_field(m.agent_name, opt_string(r.agent_name), Display::Agent),
            map_id: merged_field(m.map_id, opt_string(r.map_id), Display::Text),
            map_name: merged_field(m.map_name, map_value, Display::MapName),
            game_mode: merged_field(m.game_mode, opt_string(r.game_mode), Display::Mode),
            kda: merged_field(m.kda, opt_string(r.kda), Display::Text),
            scoreline: merged_field(m.scoreline, opt_string(r.scoreline), Display::Text),
            ..m
        }
    }
}

/// What a log record adds to its match. A record whose video source names another account
/// only adds its ids, unless it pins the match by its source path or summarises the whole
/// match; then it replaces the kill events and the account.
pub open spec fn record_step(m: MergedView, r: HighlightLogRecord) -> MergedView {
    let src_account = account_of_source(opt_string(r.record_src));
    let conflicts = src_account is Some && m.account_id is Some && src_account != m.account_id;
    let base = MergedView {
        source_log: true,
        match_id: merged_field(m.match_id, opt_string(r.match_id), Display::Text),
        battle_id: merged_field(m.battle_id, opt_string(r.battle_id), Display::Text),
        record_src: merged_field(m.record_src, opt_string(r.record_src), Display::Text),
        ..m
    };
    if conflicts && !src_matches_identity(r) && !full_match_summary(r) {
        base
    } else {
        let cleared = if conflicts {
            MergedView { kill_events: seq![], ..base }
        } else {
            base
        };
        let with_account = MergedView {
            account_id: replaced_field(cleared.account_id, src_account, Display::Text),
            ..cleared
        };
        let authoritative = src_account is Some || (full_match_summary(r) && !is_response_kind(r.line_kind));
        let filled = record_fields(with_account, r, authoritative);
        MergedView {
            has_won: if r.has_won is Some {
                r.has_won
            } else {
                filled.has_won
            },
            combat_score: if r.combat_score is Some {
                opt_int(r.combat_score)
            } else {
                filled.combat_score
            },
            kill_events: filled.kill_events + kill_events_view(r.kill_events@),
            ..filled
        }
    }
}

fn apply_record(m: &mut MergedMatch, r: &HighlightLogRecord)
    ensures
        final(m)@ == record_step(old(m)@, *r),
{
    let src_account = account_id_from_record_src(r);
    let conflicts = match (&src_account, &m.account_id) {
        (Some(a), Some(b)) => !crate::text::seq_eq(&chars_of(a.as_str()), &chars_of(b.as_str())),
        _ => false,
    };
    let precise = record_src_matches_identity(r);
    let full = record_has_full_match_summary(r);
    let response = matches!(r.line_kind, HighlightLogLineKind::BattleListResponse | HighlightLogLineKind::PostSnapshot);
    m.source_log = true;
    merge_into(&mut m.match_id, &r.match_id, Display::Text);
    merge_into(&mut m.battle_id, &r.battle_id, Display::Text);
    merge_into(&mut m.record_src, &r.record_src, Display::Text);
    if conflicts && !precise && !full {
        return;
    }
    if conflicts {
        m.kill_events = Vec::new();
        assert(kill_events_view(m.kill_events@) =~= Seq::<KillEventView>::empty());
    }
    replace_into(&mut m.account_id, &src_account, Display::Text);
    let map_value = match &r.map_name {
        Some(n) => Some(n.clone()),
        None => copy_opt(&r.map_id),
    };
    if src_account.is_some() || (full && !response) {
        replace_into(&mut m.player_name, &r.player_name, Display::Player);
        replace_into(&mut m.agent_name, &r.agent_name, Display::Agent);
        replace_into(&mut m.map_id, &r.map_id, Display::Text);
        replace_into(&mut m.map_name, &map_value, Display::MapName);
        replace_into(&mut m.game_mode, &r.game_mode, Display::Mode);
        replace_into(&mut m.kda, &r.kda, Display::Text);
        replace_into(&mut m.scoreline, &r.scoreline, Display::Text);
    } else {
        merge_into(&mut m.player_name, &r.player_name, Display::Player);
        merge_into(&mut m.agent_name, &r.agent_name, Display::Agent);
        merge_into(&mut m.map_id, &r.map_id, Display::Text);
        merge_into(&mut m.map_name, &map_value, Display::MapName);
        merge_into(&mut m.game_mode, &r.game_mode, Display::Mode);
        merge_into(&mut m.kda, &r.kda, Display::Text);
        merge_into(&mut m.scoreline, &r.scoreline, Display::Text);
    }
    if r.has_won.is_some() {
        m.has_won = r.has_won;
    }
    if r.combat_score.is_some() {
        m.combat_score = r.combat_score;
    }
    append_kill_events(&mut m.kill_events, &r.kill_events);
}

fn append_kill_events(dst: &mut Vec<HighlightLogKillEvent>, src: &Vec<HighlightLogKillEvent>)
    ensures
        kill_events_view(final(dst)@) == kill_events_view(old(dst)@) + kill_events_view(src@),
{
    let mut i: usize = 0;
    let ghost start = kill_events_view(dst@);
    assert(kill_events_view(src@).take(0) =~= Seq::<KillEventView>::empty());
    assert(start + Seq::<KillEventView>::empty() =~= start);
    while i < src.len()
        invariant
            i <= src@.len(),
            start == kill_events_view(old(dst)@),
            kill_events_view(dst@) == start + kill_events_view(src@).take(i as int),
        decreases src.len() - i,
    {
        let ghost before = dst@;
        let e = copy_kill_event(&src[i]);
        dst.push(e);
        assert(kill_events_view(dst@) =~= kill_events_view(before).push(e@));
        assert(kill_events_view(src@).take(i + 1) =~= kill_events_view(src@).take(i as int).push(e@));
        i = i + 1;
    }
    assert(kill_events_view(src@).take(i as int) =~= kill_events_view(src@));
}

// ---------------------------------------------------------------------------------------------
// Merging the sources
// ---------------------------------------------------------------------------------------------

/// The merged matches so far and the ids under which each can be found again.
pub struct MergeState {
    pub entries: Seq<MergedView>,
    pub aliases: Seq<(Seq<char>, int)>,
}

pub open spec fn alias_of(aliases: Seq<(Seq<char>, int)>, key: Seq<char>) -> Option<int> {
    match assoc_index(aliases, key, 0) {
        Some(j) => Some(aliases[j].1),
        None => None,
    }
}

/// The match registered under the first of `keys` that has one.
pub open spec fn first_alias(aliases: Seq<(Seq<char>, int)>, keys: Seq<Option<Seq<char>>>, i: int) -> Option<int>
    decreases keys.len() - i,
{
    if i < 0 || i >= keys.len() {
        None
    } else {
        match keys[i] {
            Some(k) => match alias_of(aliases, k) {
                Some(x) => Some(x),
                None => first_alias(aliases, keys, i + 1),
            },
            None => first_alias(aliases, keys, i + 1),
        }
    }
}

/// Registers `index` under each of `keys` from `i` on.
pub open spec fn registered(aliases: Seq<(Seq<char>, int)>, keys: Seq<Option<Seq<char>>>, index: int, i: int) -> Seq<(Seq<char>, int)>
    decreases keys.len() - i,
{
    if i < 0 || i >= keys.len() {
        aliases
    } else {
        let next = match keys[i] {
            Some(k) => assoc_set(aliases, k, index),
            None => aliases,
        };
        registered(next, keys, index, i + 1)
    }
}

pub open spec fn opt_group_key(src: Option<Seq<char>>) -> Option<Seq<char>> {
    match src {
        Some(s) => group_key_of(s),
        None => None,
    }
}

/// A merged match is found again by its match id, battle id and clip-group key.
pub open spec fn alias_keys(m: MergedView) -> Seq<Option<Seq<char>>> {
    seq![m.match_id, m.battle_id, opt_group_key(m.record_src)]
}

pub open spec fn battle_keys(b: LevelDbBattleRecord) -> Seq<Option<Seq<char>>> {
    seq![opt_string(b.match_id), opt_string(b.battle_id)]
}

/// A log record is looked up by its ids, or by its clip-group key when it has no id.
pub open spec fn record_keys(r: HighlightLogRecord) -> Seq<Option<Seq<char>>> {
    if r.match_id is Some || r.battle_id is Some {
        seq![opt_string(r.match_id), opt_string(r.battle_id)]
    } else {
        seq![opt_group_key(opt_string(r.record_src))]
    }
}

/// One step: find the match by `keys` (or start a new one), apply `update`, and register the
/// result under its ids.
pub open spec fn merge_step(st: MergeState, keys: Seq<Option<Seq<char>>>, update: spec_fn(MergedView) -> MergedView) -> MergeState {
    let (entries, index) = match first_alias(st.aliases, keys, 0) {
        Some(i) => (st.entries, i),
        None => (st.entries.push(empty_view()), st.entries.len() as int),
    };
    let updated = update(entries[index]);
    MergeState {
        entries: entries.update(index, updated),
        aliases: registered(st.aliases, alias_keys(updated), index, 0),
    }
}

pub open spec fn merge_battles(battles: Seq<LevelDbBattleRecord>) -> MergeState
    decreases battles.len(),
{
    if battles.len() == 0 {
        MergeState { entries: seq![], aliases: seq![] }
    } else {
        let b = battles.last();
        merge_step(merge_battles(battles.drop_last()), battle_keys(b), |m: MergedView| battle_step(m, b))
    }
}

pub open spec fn merge_records(start: MergeState, records: Seq<HighlightLogRecord>) -> MergeState
    decreases records.len(),
{
    if records.len() == 0 {
        start
    } else {
        let r = records.last();
        merge_step(merge_records(start, records.drop_last()), record_keys(r), |m: MergedView| record_step(m, r))
    }
}

/// Every alias names an existing match.
pub open spec fn aliases_in_range(st: MergeState) -> bool {
    forall|j: int| 0 <= j < st.aliases.len() ==> 0 <= #[trigger] st.aliases[j].1 < st.entries.len()
}

pub open spec fn aliases_view(v: Seq<(Vec<char>, usize)>) -> Seq<(Seq<char>, int)> {
    v.map_values(|a: (Vec<char>, usize)| (a.0@, a.1 as int))
}

pub open spec fn entries_view(v: Seq<MergedMatch>) -> Seq<MergedView> {
    v.map_values(|m: MergedMatch| m@)
}

fn alias_lookup(aliases: &Vec<(Vec<char>, usize)>, key: &Vec<char>) -> (res: Option<usize>)
    ensures
        opt_int_usize(res) == alias_of(aliases_view(aliases@), key@),
{
    let ghost view = aliases_view(aliases@);
    let mut j: usize = 0;
    while j < aliases.len()
        invariant
            j <= aliases@.len(),
            view == aliases_view(aliases@),
            assoc_index(view, key@, 0) == assoc_index(view, key@, j as int),
        decreases aliases.len() - j,
    {
        if crate::text::seq_eq(&aliases[j].0, key) {
            assert(assoc_index(view, key@, j as int) == Some(j as int));
            return Some(aliases[j].1);
        }
        j = j + 1;
    }
    None
}

pub open spec fn opt_int_usize(o: Option<usize>) -> Option<int> {
    match o {
        Some(i) => Some(i as int),
        None => None,
    }
}

fn alias_set(aliases: &mut Vec<(Vec<char>, usize)>, key: Vec<char>, index: usize)
    ensures
        aliases_view(final(aliases)@) == assoc_set(aliases_view(old(aliases)@), key@, index as int),
{
    let ghost view = aliases_view(aliases@);
    let mut j: usize = 0;
    while j < aliases.len()
        invariant
            j <= aliases@.len(),
            view == aliases_view(aliases@),
            view == aliases_view(old(aliases)@),
            assoc_index(view, key@, 0) == assoc_index(view, key@, j as int),
        decreases aliases.len() - j,
    {
        if crate::text::seq_eq(&aliases[j].0, &key) {
            assert(assoc_index(view, key@, j as int) == Some(j as int));
            let ghost kv = key@;
            aliases.set(j, (key, index));
            assert(aliases_view(aliases@) =~= view.update(j as int, (kv, index as int)));
            return;
        }
        j = j + 1;
    }
    let ghost kv = key@;
    aliases.push((key, index));
    assert(aliases_view(aliases@) =~= view.push((kv, index as int)));
}

fn opt_chars_of(o: &Option<String>) -> (res: Option<Vec<char>>)
    ensures
        opt_chars(res) == opt_string(*o),
{
    match o {
        Some(t) => Some(chars_of(t.as_str())),
        None => None,
    }
}

fn first_alias_exec(aliases: &Vec<(Vec<char>, usize)>, keys: &Vec<Option<Vec<char>>>) -> (res: Option<usize>)
    ensures
        opt_int_usize(res) == first_alias(aliases_view(aliases@), opt_vecs(keys@), 0),
{
    let mut i: usize = 0;
    while i < keys.len()
        invariant
            i <= keys@.len(),
            first_alias(aliases_view(aliases@), opt_vecs(keys@), 0) == first_alias(
                aliases_view(aliases@),
                opt_vecs(keys@),
                i as int,
            ),
        decreases keys.len() - i,
    {
        match &keys[i] {
            Some(k) => {
                let found = alias_lookup(aliases, k);
                if found.is_some() {
                    return found;
                }
            },
            None => {},
        }
        i = i + 1;
    }
    None
}

pub open spec fn opt_vecs(v: Seq<Option<Vec<char>>>) -> Seq<Option<Seq<char>>> {
    v.map_values(|o: Option<Vec<char>>| opt_chars(o))
}

fn register_exec(aliases: &mut Vec<(Vec<char>, usize)>, keys: Vec<Option<Vec<char>>>, index: usize)
    ensures
        aliases_view(final(aliases)@) == registered(aliases_view(old(aliases)@), opt_vecs(keys@), index as int, 0),
{
    let ghost kv = opt_vecs(keys@);
    let mut rest = keys;
    let n = rest.len();
    let mut i: usize = 0;
    assert(kv.len() == n);
    while i < n
        invariant
            i <= n,
            kv.len() == n,
            rest@.len() == n - i,
            opt_vecs(rest@) == kv.skip(i as int),
            registered(aliases_view(old(aliases)@), kv, index as int, 0) == registered(
                aliases_view(aliases@),
                kv,
                index as int,
                i as int,
            ),
        decreases n - i,
    {
        let ghost before = rest@;
        let k = rest.remove(0);
        assert(opt_vecs(before)[0] == kv.skip(i as int)[0]);
        assert(opt_chars(k) == kv[i as int]);
        assert(opt_vecs(rest@) =~= kv.skip(i + 1)) by {
            assert forall|j: int| 0 <= j < rest@.len() implies opt_vecs(rest@)[j] == kv.skip(i + 1)[j] by {
                assert(rest@[j] == before[j + 1]);
                assert(opt_vecs(before)[j + 1] == kv.skip(i as int)[j + 1]);
            }
        }
        match k {
            Some(key) => alias_set(aliases, key, index),
            None => {},
        }
        i = i + 1;
    }
}

fn group_key_opt(src: &Option<String>) -> (res: Option<Vec<char>>)
    ensures
        opt_chars(res) == opt_group_key(opt_string(*src)),
{
    match src {
        Some(s) => match record_src_group_key(s.as_str()) {
            Some(k) => Some(chars_of(k.as_str())),
            None => None,
        },
        None => None,
    }
}

fn alias_keys_exec(m: &MergedMatch) -> (res: Vec<Option<Vec<char>>>)
    ensures
        opt_vecs(res@) == alias_keys(m@),
{
    let mut keys: Vec<Option<Vec<char>>> = Vec::new();
    keys.push(opt_chars_of(&m.match_id));
    keys.push(opt_chars_of(&m.battle_id));
    keys.push(group_key_opt(&m.record_src));
    assert(opt_vecs(keys@) =~= alias_keys(m@));
    keys
}


fn battle_keys_exec(b: &LevelDbBattleRecord) -> (res: Vec<Option<Vec<char>>>)
    ensures
        opt_vecs(res@) == battle_keys(*b),
{
    let mut keys: Vec<Option<Vec<char>>> = Vec::new();
    keys.push(opt_chars_of(&b.match_id));
    keys.push(opt_chars_of(&b.battle_id));
    assert(opt_vecs(keys@) =~= battle_keys(*b));
    keys
}

fn record_keys_exec(r: &HighlightLogRecord) -> (res: Vec<Option<Vec<char>>>)
    ensures
        opt_vecs(res@) == record_keys(*r),
{
    let mut keys: Vec<Option<Vec<char>>> = Vec::new();
    if r.match_id.is_some() || r.battle_id.is_some() {
        keys.push(opt_chars_of(&r.match_id));
        keys.push(opt_chars_of(&r.battle_id));
    } else {
        keys.push(group_key_opt(&r.record_src));
    }
    assert(opt_vecs(keys@) =~= record_keys(*r));
    keys
}

proof fn lemma_assoc_index_bounds(list: Seq<(Seq<char>, int)>, key: Seq<char>, i: int)
    requires
        0 <= i,
    ensures
        assoc_index(list, key, i) matches Some(j) ==> i <= j < list.len() && list[j].0 == key,
    decreases list.len() - i,
{
    if i < list.len() && list[i].0 != key {
        lemma_assoc_index_bounds(list, key, i + 1);
    }
}

proof fn lemma_registered_in_range(aliases: Seq<(Seq<char>, int)>, keys: Seq<Option<Seq<char>>>, index: int, i: int, bound: int)
    requires
        0 <= index < bound,
        forall|j: int| 0 <= j < aliases.len() ==> 0 <= #[trigger] aliases[j].1 < bound,
    ensures
        forall|j: int|
            0 <= j < registered(aliases, keys, index, i).len() ==> 0 <= #[trigger] registered(aliases, keys, index, i)[j].1 < bound,
    decreases keys.len() - i,
{
    if 0 <= i < keys.len() {
        let next = match keys[i] {
            Some(k) => assoc_set(aliases, k, index),
            None => aliases,
        };
        if let Some(k) = keys[i] {
            lemma_assoc_index_bounds(aliases, k, 0);
        }
        assert forall|j: int| 0 <= j < next.len() implies 0 <= #[trigger] next[j].1 < bound by {
            if let Some(k) = keys[i] {
                match assoc_index(aliases, k, 0) {
                    Some(x) => {
                        if j != x {
                            assert(next[j] == aliases[j]);
                        }
                    },
                    None => {
                        if j < aliases.len() {
                            assert(next[j] == aliases[j]);
                        }
                    },
                }
            }
        }
        lemma_registered_in_range(next, keys, index, i + 1, bound);
        assert(registered(aliases, keys, index, i) == registered(next, keys, index, i + 1));
    }
}

/// Finds the match registered under the first of `keys` that has one, or appends a new empty
/// match; returns its index.
fn locate_entry(entries: &mut Vec<MergedMatch>, aliases: &Vec<(Vec<char>, usize)>, keys: &Vec<Option<Vec<char>>>) -> (index: usize)
    requires
        forall|j: int| 0 <= j < aliases@.len() ==> (#[trigger] aliases@[j]).1 < old(entries)@.len(),
    ensures
        match first_alias(aliases_view(aliases@), opt_vecs(keys@), 0) {
            Some(i) => entries_view(final(entries)@) == entries_view(old(entries)@) && index == i,
            None => entries_view(final(entries)@) == entries_view(old(entries)@).push(empty_view())
                && index == old(entries)@.len(),
        },
        index < final(entries)@.len(),
        old(entries)@.len() <= final(entries)@.len(),
{
    let found = first_alias_exec(aliases, keys);
    match found {
        Some(i) => {
            proof {
                lemma_first_alias_in(aliases_view(aliases@), opt_vecs(keys@), 0);
                let j = choose|j: int| 0 <= j < aliases@.len() && aliases_view(aliases@)[j].1 == i;
                assert(aliases_view(aliases@)[j].1 == aliases@[j].1 as int);
            }
            i
        },
        None => {
            let ghost before = entries@;
            let index = entries.len();
            entries.push(MergedMatch::empty());
            assert(entries_view(entries@) =~= entries_view(before).push(empty_view()));
            index
        },
    }
}

proof fn lemma_first_alias_in(aliases: Seq<(Seq<char>, int)>, keys: Seq<Option<Seq<char>>>, i: int)
    requires
        0 <= i,
    ensures
        first_alias(aliases, keys, i) matches Some(x) ==> exists|j: int| 0 <= j < aliases.len() && aliases[j].1 == x,
    decreases keys.len() - i,
{
    if i < keys.len() {
        if let Some(k) = keys[i] {
            lemma_assoc_index_bounds(aliases, k, 0);
            match assoc_index(aliases, k, 0) {
                Some(j) => {
                    assert(aliases[j].1 == aliases[j].1);
                },
                None => {
                    lemma_first_alias_in(aliases, keys, i + 1);
                },
            }
        } else {
            lemma_first_alias_in(aliases, keys, i + 1);
        }
    }
}


/// The storage battles and log records to merge.
pub struct MetadataIngestInput<'a> {
    pub leveldb_battles: &'a [LevelDbBattleRecord],
    pub log_records: &'a [HighlightLogRecord],
}

/// The matches that the storage battles and then the log records describe, one entry per
/// match, in the order in which each match was first seen.
pub open spec fn merged_matches(battles: Seq<LevelDbBattleRecord>, records: Seq<HighlightLogRecord>) -> Seq<MergedView> {
    merge_records(merge_battles(battles), records).entries
}

proof fn lemma_replaced_entry(before: Seq<MergedMatch>, after: Seq<MergedMatch>, index: int, m: MergedMatch)
    requires
        0 <= index < before.len(),
        after == before.remove(index).insert(index, m),
    ensures
        entries_view(after) == entries_view(before).update(index, m@),
{
    assert(entries_view(after) =~= entries_view(before).update(index, m@)) by {
        assert forall|j: int| 0 <= j < after.len() implies #[trigger] entries_view(after)[j] == entries_view(before).update(index, m@)[j] by {
            if j < index {
                assert(after[j] == before[j]);
            } else if j > index {
                assert(after[j] == before[j]);
            }
        }
    }
}

pub fn merge_metadata_sources(input: MetadataIngestInput<'_>) -> (res: Vec<MergedMatch>)
    ensures
        entries_view(res@) == merged_matches(input.leveldb_battles@, input.log_records@),
{
    let battles = input.leveldb_battles;
    let records = input.log_records;
    let mut entries: Vec<MergedMatch> = Vec::new();
    let mut aliases: Vec<(Vec<char>, usize)> = Vec::new();
    let mut i: usize = 0;
    assert(battles@.take(0) =~= Seq::<LevelDbBattleRecord>::empty());
    assert(entries_view(entries@) =~= Seq::<MergedView>::empty());
    assert(aliases_view(aliases@) =~= Seq::<(Seq<char>, int)>::empty());
    while i < battles.len()
        invariant
            i <= battles@.len(),
            entries_view(entries@) == merge_battles(battles@.take(i as int)).entries,
            aliases_view(aliases@) == merge_battles(battles@.take(i as int)).aliases,
            forall|j: int| 0 <= j < aliases@.len() ==> (#[trigger] aliases@[j]).1 < entries@.len(),
        decreases battles.len() - i,
    {
        let b = &battles[i];
        let ghost st = merge_battles(battles@.take(i as int));
        assert(battles@.take(i + 1).drop_last() =~= battles@.take(i as int));
        assert(battles@.take(i + 1).last() == *b);
        let keys = battle_keys_exec(b);
        let ghost len0 = entries@.len();
        assert(forall|j: int| 0 <= j < aliases@.len() ==> (#[trigger] aliases@[j]).1 < len0);
        let index = locate_entry(&mut entries, &aliases, &keys);
        let ghost mid = entries@;
        let mut m = entries.remove(index);
        apply_battle(&mut m, b);
        let ghost mv = m@;
        let ak = alias_keys_exec(&m);
        entries.insert(index, m);
        proof {
            lemma_replaced_entry(mid, entries@, index as int, m);
        }
        let ghost pre = aliases@;
        let ghost old_aliases = aliases_view(aliases@);
        register_exec(&mut aliases, ak, index);
        proof {
            assert forall|j: int| 0 <= j < old_aliases.len() implies 0 <= #[trigger] old_aliases[j].1 < entries@.len() by {
                assert(old_aliases[j].1 == pre[j].1 as int);
                assert(pre[j].1 < len0);
            }
            lemma_registered_in_range(old_aliases, alias_keys(mv), index as int, 0, entries@.len() as int);
            assert forall|j: int| 0 <= j < aliases@.len() implies (#[trigger] aliases@[j]).1 < entries@.len() by {
                assert(aliases_view(aliases@)[j].1 == aliases@[j].1 as int);
            }
        }
        i = i + 1;
    }
    assert(battles@.take(battles@.len() as int) =~= battles@);
    let ghost start = merge_battles(battles@);
    let mut k: usize = 0;
    assert(records@.take(0) =~= Seq::<HighlightLogRecord>::empty());
    while k < records.len()
        invariant
            k <= records@.len(),
            start == merge_battles(battles@),
            entries_view(entries@) == merge_records(start, records@.take(k as int)).entries,
            aliases_view(aliases@) == merge_records(start, records@.take(k as int)).aliases,
            forall|j: int| 0 <= j < aliases@.len() ==> (#[trigger] aliases@[j]).1 < entries@.len(),
        decreases records.len() - k,
    {
        let r = &records[k];
        assert(records@.take(k + 1).drop_last() =~= records@.take(k as int));
        assert(records@.take(k + 1).last() == *r);
        let keys = record_keys_exec(r);
        let ghost len0 = entries@.len();
        assert(forall|j: int| 0 <= j < aliases@.len() ==> (#[trigger] aliases@[j]).1 < len0);
        let index = locate_entry(&mut entries, &aliases, &keys);
        let ghost mid = entries@;
        let mut m = entries.remove(index);
        apply_record(&mut m, r);
        let ghost mv = m@;
        let ak = alias_keys_exec(&m);
        entries.insert(index, m);
        proof {
            lemma_replaced_entry(mid, entries@, index as int, m);
        }
        let ghost pre = aliases@;
        let ghost old_aliases = aliases_view(aliases@);
        register_exec(&mut aliases, ak, index);
        proof {
            assert forall|j: int| 0 <= j < old_aliases.len() implies 0 <= #[trigger] old_aliases[j].1 < entries@.len() by {
                assert(old_aliases[j].1 == pre[j].1 as int);
                assert(pre[j].1 < len0);
            }
            lemma_registered_in_range(old_aliases, alias_keys(mv), index as int, 0, entries@.len() as int);
            assert forall|j: int| 0 <= j < aliases@.len() implies (#[trigger] aliases@[j]).1 < entries@.len() by {
                assert(aliases_view(aliases@)[j].1 == aliases@[j].1 as int);
            }
        }
        k = k + 1;
    }
    assert(records@.take(records@.len() as int) =~= records@);
    entries
}


proof fn lemma_merge_step_in_range(st: MergeState, keys: Seq<Option<Seq<char>>>, update: spec_fn(MergedView) -> MergedView)
    requires
        aliases_in_range(st),
    ensures
        aliases_in_range(merge_step(st, keys, update)),
        merge_step(st, keys, update).entries.len() <= st.entries.len() + 1,
{
    lemma_first_alias_in(st.aliases, keys, 0);
    let next = merge_step(st, keys, update);
    let (entries, index) = match first_alias(st.aliases, keys, 0) {
        Some(i) => (st.entries, i),
        None => (st.entries.push(empty_view()), st.entries.len() as int),
    };
    if let Some(i) = first_alias(st.aliases, keys, 0) {
        let j = choose|j: int| 0 <= j < st.aliases.len() && st.aliases[j].1 == i;
        assert(0 <= st.aliases[j].1 < st.entries.len());
    }
    lemma_registered_in_range(st.aliases, alias_keys(update(entries[index])), index, 0, entries.len() as int);
}

proof fn lemma_merge_battles_in_range(battles: Seq<LevelDbBattleRecord>)
    ensures
        aliases_in_range(merge_battles(battles)),
        merge_battles(battles).entries.len() <= battles.len(),
    decreases battles.len(),
{
    if battles.len() > 0 {
        let b = battles.last();
        lemma_merge_battles_in_range(battles.drop_last());
        lemma_merge_step_in_range(merge_battles(battles.drop_last()), battle_keys(b), |m: MergedView| battle_step(m, b));
    }
}

proof fn lemma_merge_records_in_range(start: MergeState, records: Seq<HighlightLogRecord>)
    requires
        aliases_in_range(start),
    ensures
        aliases_in_range(merge_records(start, records)),
        merge_records(start, records).entries.len() <= start.entries.len() + records.len(),
    decreases records.len(),
{
    if records.len() > 0 {
        let r = records.last();
        lemma_merge_records_in_range(start, records.drop_last());
        lemma_merge_step_in_range(merge_records(start, records.drop_last()), record_keys(r), |m: MergedView| record_step(m, r));
    }
}

/// Merging never invents matches: every id under which a match can be found names one of the
/// merged matches, and there are at most as many matches as battles and records together.
pub proof fn law_merge_aliases_name_merged_matches(battles: Seq<LevelDbBattleRecord>, records: Seq<HighlightLogRecord>)
    ensures
        aliases_in_range(merge_records(merge_battles(battles), records)),
        merged_matches(battles, records).len() <= battles.len() + records.len(),
{
    lemma_merge_battles_in_range(battles);
    lemma_merge_records_in_range(merge_battles(battles), records);
}


// ---------------------------------------------------------------------------------------------
// From a merged match to rows
// ---------------------------------------------------------------------------------------------

/// The id under which a merged match is stored: its match id, else its battle id, else its
/// clip-group key.
pub open spec fn game_id_of(m: MergedView) -> Option<Seq<char>> {
    match m.match_id {
        Some(id) => Some(id),
        None => match m.battle_id {
            Some(id) => Some(id),
            None => opt_group_key(m.record_src),
        },
    }
}

impl MergedMatch {
    pub fn game_id(&self) -> (res: Option<String>)
        ensures
            opt_string(res) == game_id_of(self@),
    {
        if self.match_id.is_some() {
            return copy_opt(&self.match_id);
        }
        if self.battle_id.is_some() {
            return copy_opt(&self.battle_id);
        }
        opt_to_string(group_key_opt(&self.record_src))
    }
}

/// The distinct keys among `keys`, in order of first appearance.
pub open spec fn distinct_present(keys: Seq<Option<Seq<char>>>) -> Seq<Seq<char>>
    decreases keys.len(),
{
    if keys.len() == 0 {
        seq![]
    } else {
        let prior = distinct_present(keys.drop_last());
        match keys.last() {
            Some(k) => if prior.contains(k) {
                prior
            } else {
                prior.push(k)
            },
            None => prior,
        }
    }
}

/// The clip-group keys under which the clips of a merged match may be filed: its match id,
/// battle id and the group key of its video source, each once.
pub fn group_keys_for_merged(m: &MergedMatch) -> (res: Vec<String>)
    ensures
        res@.map_values(|s: String| s@) == distinct_present(alias_keys(m@)),
{
    let keys = alias_keys_exec(m);
    let ghost kv = opt_vecs(keys@);
    let mut out: Vec<String> = Vec::new();
    let mut seen: Vec<Vec<char>> = Vec::new();
    let mut i: usize = 0;
    assert(kv.take(0) =~= Seq::<Option<Seq<char>>>::empty());
    while i < keys.len()
        invariant
            i <= keys@.len(),
            kv == opt_vecs(keys@),
            kv == alias_keys(m@),
            out@.map_values(|s: String| s@) == distinct_present(kv.take(i as int)),
            vecs_of(seen@) == distinct_present(kv.take(i as int)),
        decreases keys.len() - i,
    {
        assert(kv.take(i + 1).drop_last() =~= kv.take(i as int));
        assert(kv.take(i + 1).last() == kv[i as int]);
        match &keys[i] {
            Some(k) => {
                let mut found = false;
                let mut j: usize = 0;
                while j < seen.len()
                    invariant
                        j <= seen@.len(),
                        found == exists|x: int| 0 <= x < j && vecs_of(seen@)[x] == k@,
                    decreases seen.len() - j,
                {
                    assert(vecs_of(seen@)[j as int] == seen@[j as int]@);
                    if crate::text::seq_eq(&seen[j], k) {
                        found = true;
                    }
                    j = j + 1;
                }
                let ghost prior = distinct_present(kv.take(i as int));
                assert(found == prior.contains(k@)) by {
                    if prior.contains(k@) {
                        let x = choose|x: int| 0 <= x < prior.len() && prior[x] == k@;
                        assert(vecs_of(seen@)[x] == k@);
                    }
                }
                if !found {
                    let ghost before_out = out@;
                    let ghost before_seen = seen@;
                    out.push(string_of(k.as_slice()));
                    seen.push(k.clone());
                    assert(out@.map_values(|s: String| s@) =~= before_out.map_values(|s: String| s@).push(k@));
                    assert(vecs_of(seen@) =~= vecs_of(before_seen).push(k@));
                }
            },
            None => {},
        }
        i = i + 1;
    }
    assert(kv.take(i as int) =~= kv);
    out
}

pub fn recordable_kill_events(events: &Vec<HighlightLogKillEvent>) -> (res: Vec<HighlightLogKillEvent>)
    ensures
        kill_events_view(res@) == recordable(kill_events_view(events@)),
{
    let ghost ev = kill_events_view(events@);
    let mut out: Vec<HighlightLogKillEvent> = Vec::new();
    let mut i: usize = 0;
    proof {
        reveal(Seq::filter);
    }
    assert(ev.take(0) =~= Seq::<KillEventView>::empty());
    assert(kill_events_view(out@) =~= Seq::<KillEventView>::empty());
    while i < events.len()
        invariant
            i <= events@.len(),
            ev == kill_events_view(events@),
            kill_events_view(out@) == recordable(ev.take(i as int)),
        decreases events.len() - i,
    {
        assert(ev.take(i + 1).drop_last() =~= ev.take(i as int));
        assert(ev.take(i + 1).last() == events@[i as int]@);
        proof {
            reveal(Seq::filter);
        }
        if events[i].round_id != Some(0i64) {
            let ghost before = out@;
            let e = copy_kill_event(&events[i]);
            out.push(e);
            assert(kill_events_view(out@) =~= kill_events_view(before).push(e@));
        }
        i = i + 1;
    }
    assert(ev.take(i as int) =~= ev);
    out
}

/// The statistics row of a match: kills, deaths and assists from its `k/d/a`, rounds from its
/// scoreline, its combat score and whether it was won.
pub struct MatchStatsRow {
    pub kills: Option<i64>,
    pub deaths: Option<i64>,
    pub assists: Option<i64>,
    pub combat_score: Option<i64>,
    pub rounds_won: Option<i64>,
    pub rounds_lost: Option<i64>,
    pub rounds_played: Option<i64>,
    pub has_won: Option<i64>,
}

/// A match has statistics when any of them is known.
pub open spec fn has_stats(m: MergedView) -> bool {
    let (k, d, a) = kda_parts(m.kda);
    let (w, l) = scoreline_parts(m.scoreline);
    k is Some || d is Some || a is Some || m.combat_score is Some || w is Some || l is Some || m.has_won is Some
}

/// The statistics row of a merged match, or `None` when nothing of it is known.
pub fn match_stats_row(m: &MergedMatch) -> (res: Option<MatchStatsRow>)
    ensures
        res is Some <==> has_stats(m@),
        res matches Some(row) ==> {
            &&& (opt_int(row.kills), opt_int(row.deaths), opt_int(row.assists)) == kda_parts(m@.kda)
            &&& (opt_int(row.rounds_won), opt_int(row.rounds_lost)) == scoreline_parts(m@.scoreline)
            &&& row.combat_score == m.combat_score
            &&& row.rounds_played == match (row.rounds_won, row.rounds_lost) {
                (Some(w), Some(l)) => if i64::MIN <= w + l <= i64::MAX {
                    Some((w + l) as i64)
                } else {
                    None
                },
                _ => None,
            }
            &&& row.has_won == match m.has_won {
                Some(true) => Some(1i64),
                Some(false) => Some(0i64),
                None => None,
            }
        },
{
    let kda = match &m.kda {
        Some(k) => Some(k.as_str()),
        None => None,
    };
    let scoreline = match &m.scoreline {
        Some(s) => Some(s.as_str()),
        None => None,
    };
    let (kills, deaths, assists) = parse_kda(kda);
    let (won, lost) = parse_scoreline(scoreline);
    let any = kills.is_some() || deaths.is_some() || assists.is_some() || m.combat_score.is_some() || won.is_some()
        || lost.is_some() || m.has_won.is_some();
    if !any {
        return None;
    }
    let has_won = match m.has_won {
        Some(v) => Some(bool_to_integer(v)),
        None => None,
    };
    Some(MatchStatsRow {
        kills,
        deaths,
        assists,
        combat_score: m.combat_score,
        rounds_won: won,
        rounds_lost: lost,
        rounds_played: rounds_played(won, lost),
        has_won,
    })
}

/// The account of a match after looking at the source folders of its clips: the one account
/// they name when they all name the same one, else the account it had.
pub open spec fn reconciled_account(current: Option<Seq<char>>, sources: Seq<Seq<char>>) -> Option<Seq<char>> {
    if sources.len() > 0 && forall|i: int| 0 <= i < sources.len() ==> #[trigger] sources[i] == sources[0] {
        Some(sources[0])
    } else {
        current
    }
}

pub fn reconcile_account(current: &Option<String>, source_accounts: &Vec<String>) -> (res: Option<String>)
    ensures
        opt_string(res) == reconciled_account(opt_string(*current), source_accounts@.map_values(|s: String| s@)),
{
    let ghost sv = source_accounts@.map_values(|s: String| s@);
    if source_accounts.len() == 0 {
        return copy_opt(current);
    }
    let first = chars_of(source_accounts[0].as_str());
    let mut i: usize = 1;
    while i < source_accounts.len()
        invariant
            1 <= i <= source_accounts@.len(),
            sv == source_accounts@.map_values(|s: String| s@),
            first@ == sv[0],
            forall|j: int| 0 <= j < i ==> #[trigger] sv[j] == sv[0],
        decreases source_accounts.len() - i,
    {
        if !crate::text::seq_eq(&chars_of(source_accounts[i].as_str()), &first) {
            assert(sv[i as int] != sv[0]);
            return copy_opt(current);
        }
        i = i + 1;
    }
    Some(string_of(first.as_slice()))
}

/// The counts reported after ingesting match metadata.
pub struct MetadataIngestSummary {
    pub matches_upserted: usize,
    pub stats_upserted: usize,
    pub events_inserted: usize,
    pub enriched_clip_count: usize,
    pub unmatched_match_count: usize,
}

impl MetadataIngestSummary {
    pub fn new() -> (res: Self)
        ensures
            res.matches_upserted == 0 && res.stats_upserted == 0 && res.events_inserted == 0
                && res.enriched_clip_count == 0 && res.unmatched_match_count == 0,
    {
        MetadataIngestSummary {
            matches_upserted: 0,
            stats_upserted: 0,
            events_inserted: 0,
            enriched_clip_count: 0,
            unmatched_match_count: 0,
        }
    }
}

} // verus!
