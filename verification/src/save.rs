//! Reading a save: the `meta` and `gamestate` entries of the save archive
//! are parsed as Clausewitz text and summarised.
use vstd::prelude::*;
use vstd::utf8::{decode_utf8, valid_utf8};
use crate::actions::{ActionFacts, action_facts_of, extract_action_facts};
use crate::clausewitz::{
    ClausewitzValue, ParseError, SValue, atom_string, collect_atoms, direct_entry, find_value_by_key,
    first_atom, first_bool, opt_str_view, parse_clausewitz, spec_atom_string,
    spec_bool_from_value, spec_collect_atoms, spec_direct_entry, spec_find_value,
    spec_parse_clausewitz, strs_view, value_view,
};
use crate::discovery::{DiscoveryFacts, discovery_facts_of, extract_discovery_facts};
use crate::gather::or_else;
use crate::progression::{ProgressionCounts, extract_progression_counts, progression_counts_of};
use crate::text::views;

verus! {

/// Largest `meta` entry a save may have (1 MiB).
pub const MAX_META_BYTES: u64 = 1048576;

/// Largest `gamestate` entry a save may have (128 MiB).
pub const MAX_GAMESTATE_BYTES: u64 = 134217728;

#[verifier::external_type_specification]
#[verifier::external_body]
pub struct ExZipError(zip::result::ZipError);

/// The uncompressed size of the entry `name` of the zip archive `archive`,
/// when the archive can be read and holds that entry.
pub uninterp spec fn zip_entry_size(archive: Seq<u8>, name: Seq<char>) -> Option<u64>;

/// The uncompressed bytes of the entry `name` of the zip archive `archive`,
/// when the archive can be read and the entry decompressed.
pub uninterp spec fn zip_entry_data(archive: Seq<u8>, name: Seq<char>) -> Option<Seq<u8>>;

/// Opens the archive (`zip::ZipArchive::new` over the bytes), finds the
/// entry (`ZipArchive::by_name`) and reports its uncompressed size
/// (`ZipFile::size`). The contract names the size and claims nothing else.
#[verifier::external_body]
fn entry_size(archive: &[u8], name: &str) -> (r: Result<u64, zip::result::ZipError>)
    ensures
        match r {
            Ok(n) => zip_entry_size(archive@, name@) == Some(n),
            Err(_) => zip_entry_size(archive@, name@) is None,
        },
{
    let mut za = zip::ZipArchive::new(std::io::Cursor::new(archive))?;
    let file = za.by_name(name)?;
    Ok(file.size())
}

/// Opens the archive, finds the entry and reads it to the end
/// (`std::io::Read::read_to_end` on the `ZipFile`, whose i/o errors become
/// `ZipError::Io`). The contract names the bytes and claims nothing else.
#[verifier::external_body]
fn entry_bytes(archive: &[u8], name: &str) -> (r: Result<Vec<u8>, zip::result::ZipError>)
    ensures
        match r {
            Ok(b) => zip_entry_data(archive@, name@) == Some(b@),
            Err(_) => zip_entry_data(archive@, name@) is None,
        },
{
    let mut za = zip::ZipArchive::new(std::io::Cursor::new(archive))?;
    let mut file = za.by_name(name)?;
    let mut buf: Vec<u8> = Vec::new();
    std::io::Read::read_to_end(&mut file, &mut buf).map_err(zip::result::ZipError::Io)?;
    Ok(buf)
}

/// The message of a zip error (its `Display`); nothing is claimed of it.
#[verifier::external_body]
fn zip_error_message(e: &zip::result::ZipError) -> String {
    format!("{e}")
}

/// `String::from_utf8`: the text the bytes encode, when they are UTF-8.
#[verifier::external_body]
fn utf8_text(bytes: Vec<u8>) -> (r: Option<String>)
    ensures
        match r {
            Some(s) => valid_utf8(bytes@) && s@ == decode_utf8(bytes@),
            None => !valid_utf8(bytes@),
        },
{
    String::from_utf8(bytes).ok()
}

/// Why a save could not be read.
#[derive(Debug)]
pub enum SaveError {
    /// The archive or one of its entries could not be read (the zip
    /// library's message).
    Zip(String),
    /// An entry is larger than its safety limit.
    EntryTooLarge { name: String, size: u64, limit: u64 },
    /// An entry is not UTF-8 text.
    NotUtf8 { name: String },
    /// An entry is not valid Clausewitz text.
    Parse(ParseError),
}

/// What reading one entry as text gives.
pub enum EntryRead {
    Text(Seq<char>),
    ZipFailure,
    TooLarge(u64),
    NotUtf8,
}

/// Reading entry `name` as text, refusing it above `limit` bytes.
pub open spec fn spec_entry_read(archive: Seq<u8>, name: Seq<char>, limit: u64) -> EntryRead {
    match zip_entry_size(archive, name) {
        None => EntryRead::ZipFailure,
        Some(size) => if size > limit {
            EntryRead::TooLarge(size)
        } else {
            match zip_entry_data(archive, name) {
                None => EntryRead::ZipFailure,
                Some(b) => if valid_utf8(b) {
                    EntryRead::Text(decode_utf8(b))
                } else {
                    EntryRead::NotUtf8
                },
            }
        },
    }
}

/// `e` is the error that reading entry `name` gives, as `read` describes it.
pub open spec fn entry_error(e: SaveError, read: EntryRead, name: Seq<char>, limit: u64) -> bool {
    match (e, read) {
        (SaveError::Zip(_), EntryRead::ZipFailure) => true,
        (SaveError::EntryTooLarge { name: n, size, limit: l }, EntryRead::TooLarge(s)) => n@ == name
            && size == s && l == limit,
        (SaveError::NotUtf8 { name: n }, EntryRead::NotUtf8) => n@ == name,
        _ => false,
    }
}

/// Reads entry `name` of the archive as text, refusing it above `max_bytes`.
pub fn read_entry_text(archive: &[u8], name: &str, max_bytes: u64) -> (r: Result<String, SaveError>)
    ensures
        match r {
            Ok(s) => spec_entry_read(archive@, name@, max_bytes) == EntryRead::Text(s@),
            Err(e) => entry_error(e, spec_entry_read(archive@, name@, max_bytes), name@, max_bytes),
        },
{
    let size = match entry_size(archive, name) {
        Ok(n) => n,
        Err(e) => return Err(SaveError::Zip(zip_error_message(&e))),
    };
    if size > max_bytes {
        return Err(SaveError::EntryTooLarge { name: name.to_owned(), size, limit: max_bytes });
    }
    let bytes = match entry_bytes(archive, name) {
        Ok(b) => b,
        Err(e) => return Err(SaveError::Zip(zip_error_message(&e))),
    };
    match utf8_text(bytes) {
        Some(s) => Ok(s),
        None => Err(SaveError::NotUtf8 { name: name.to_owned() }),
    }
}

// ── Summary ─────────────────────────────────────────────────────────────

/// A summary of one save: its metadata, the player's empire and founder
/// species, and the facts the planner reads.
#[derive(Debug, Default)]
pub struct SaveSummary {
    pub version: Option<String>,
    pub date: Option<String>,
    pub name: Option<String>,
    pub required_dlcs: Vec<String>,
    pub ironman: Option<bool>,
    pub cheated_on_save: Option<bool>,
    pub player_country: Option<String>,
    pub authority: Option<String>,
    pub government_type: Option<String>,
    pub origin: Option<String>,
    pub ethics: Vec<String>,
    pub civics: Vec<String>,
    pub founder_species_ref: Option<String>,
    pub founder_species_class: Option<String>,
    pub founder_species_portrait: Option<String>,
    pub founder_species_traits: Vec<String>,
    pub ruler_traits: Vec<String>,
    pub discovery: Option<DiscoveryFacts>,
    pub progression: Option<ProgressionCounts>,
    pub actions: Option<ActionFacts>,
}

/// The non-empty atom found first under `key`.
pub open spec fn found_atom(v: SValue, key: Seq<char>) -> Option<Seq<char>> {
    match spec_find_value(v, key) {
        Some(x) => spec_atom_string(x),
        None => None,
    }
}

/// The truth value found first under `key`.
pub open spec fn found_bool(v: SValue, key: Seq<char>) -> Option<bool> {
    match spec_find_value(v, key) {
        Some(x) => spec_bool_from_value(x),
        None => None,
    }
}

/// The non-empty atom of an optional value.
pub open spec fn atom_of(o: Option<SValue>) -> Option<Seq<char>> {
    match o {
        Some(x) => spec_atom_string(x),
        None => None,
    }
}

/// The distinct atoms of an optional value, or none.
pub open spec fn atoms_or_empty(o: Option<SValue>) -> Seq<Seq<char>> {
    match o {
        Some(x) => spec_collect_atoms(x),
        None => Seq::empty(),
    }
}

/// The entry `key` of the country's `government` block.
pub open spec fn government_entry(country: SValue, key: Seq<char>) -> Option<SValue> {
    match spec_direct_entry(country, "government"@) {
        Some(g) => spec_direct_entry(g, key),
        None => None,
    }
}

/// The player's country id: `country` found under `player`.
pub open spec fn player_country_of(game: SValue) -> Option<Seq<char>> {
    match spec_find_value(game, "player"@) {
        Some(p) => found_atom(p, "country"@),
        None => None,
    }
}

/// The player's country id and country block.
pub open spec fn player_block(game: SValue) -> Option<(Seq<char>, SValue)> {
    match player_country_of(game) {
        Some(id) => match spec_direct_entry(game, "country"@) {
            Some(root) => match spec_direct_entry(root, id) {
                Some(c) => Some((id, c)),
                None => None,
            },
            None => None,
        },
        None => None,
    }
}

/// The block of species `r` in the species database.
pub open spec fn species_block(game: SValue, r: Option<Seq<char>>) -> Option<SValue> {
    match r {
        Some(id) => match spec_direct_entry(game, "species_db"@) {
            Some(db) => spec_direct_entry(db, id),
            None => None,
        },
        None => None,
    }
}

/// `s` summarises the save whose `meta` parses to `meta` and whose
/// `gamestate` parses to `game`.
pub open spec fn save_summary_of(s: SaveSummary, meta: SValue, game: SValue) -> bool {
    &&& opt_str_view(s.version) == or_else(found_atom(meta, "version"@), found_atom(game, "version"@))
    &&& opt_str_view(s.date) == or_else(found_atom(meta, "date"@), found_atom(game, "date"@))
    &&& opt_str_view(s.name) == or_else(found_atom(meta, "name"@), found_atom(game, "name"@))
    &&& views(s.required_dlcs@) == atoms_or_empty(spec_find_value(meta, "required_dlcs"@))
    &&& s.ironman == or_else(found_bool(meta, "ironman"@), found_bool(game, "ironman"@))
    &&& s.cheated_on_save == found_bool(game, "cheated_on_save"@)
    &&& opt_str_view(s.player_country) == player_country_of(game)
    &&& match player_block(game) {
        Some((id, c)) => {
            &&& opt_str_view(s.authority) == atom_of(
                or_else(government_entry(c, "authority"@), spec_direct_entry(c, "authority"@)),
            )
            &&& opt_str_view(s.government_type) == atom_of(
                or_else(government_entry(c, "type"@), spec_direct_entry(c, "government_type"@)),
            )
            &&& opt_str_view(s.origin) == atom_of(
                or_else(government_entry(c, "origin"@), spec_direct_entry(c, "origin"@)),
            )
            &&& views(s.ethics@) == atoms_or_empty(
                or_else(spec_direct_entry(c, "ethos"@), spec_direct_entry(c, "ethics"@)),
            )
            &&& views(s.civics@) == atoms_or_empty(
                or_else(government_entry(c, "civics"@), spec_direct_entry(c, "civics"@)),
            )
            &&& opt_str_view(s.founder_species_ref) == atom_of(
                or_else(
                    spec_direct_entry(c, "founder_species_ref"@),
                    or_else(
                        spec_direct_entry(c, "founder_species"@),
                        spec_direct_entry(c, "species"@),
                    ),
                ),
            )
            &&& s.discovery matches Some(d) && discovery_facts_of(d, game, c)
            &&& s.progression matches Some(p) && progression_counts_of(p, game, c)
            &&& s.actions matches Some(a) && action_facts_of(a, game, c, id)
        },
        None => {
            &&& s.authority is None
            &&& s.government_type is None
            &&& s.origin is None
            &&& s.ethics@.len() == 0
            &&& s.civics@.len() == 0
            &&& s.founder_species_ref is None
            &&& s.discovery is None
            &&& s.progression is None
            &&& s.actions is None
        },
    }
    &&& match species_block(game, opt_str_view(s.founder_species_ref)) {
        Some(sp) => {
            &&& opt_str_view(s.founder_species_class) == atom_of(
                or_else(spec_direct_entry(sp, "class"@), spec_direct_entry(sp, "species_class"@)),
            )
            &&& opt_str_view(s.founder_species_portrait) == atom_of(
                spec_direct_entry(sp, "portrait"@),
            )
            &&& views(s.founder_species_traits@) == atoms_or_empty(spec_direct_entry(sp, "traits"@))
        },
        None => {
            &&& s.founder_species_class is None
            &&& s.founder_species_portrait is None
            &&& s.founder_species_traits@.len() == 0
        },
    }
    &&& s.ruler_traits@.len() == 0
}

fn atom_of_exec(o: Option<&ClausewitzValue>) -> (r: Option<String>)
    ensures
        opt_str_view(r) == atom_of(crate::clausewitz::opt_view(o)),
{
    match o {
        Some(v) => atom_string(v),
        None => None,
    }
}

fn atoms_or_empty_exec(o: Option<&ClausewitzValue>) -> (r: Vec<String>)
    ensures
        views(r@) == atoms_or_empty(crate::clausewitz::opt_view(o)),
{
    match o {
        Some(v) => {
            let r = collect_atoms(v);
            proof {
                assert(views(r@) =~= strs_view(r@));
            }
            r
        },
        None => {
            let r: Vec<String> = Vec::new();
            proof {
                assert(views(r@) =~= Seq::<Seq<char>>::empty());
            }
            r
        },
    }
}

fn either<'a>(a: Option<&'a ClausewitzValue>, b: Option<&'a ClausewitzValue>) -> (r: Option<
    &'a ClausewitzValue,
>)
    ensures
        crate::clausewitz::opt_view(r) == or_else(
            crate::clausewitz::opt_view(a),
            crate::clausewitz::opt_view(b),
        ),
{
    match a {
        Some(x) => Some(x),
        None => b,
    }
}

fn government_entry_exec<'a>(country: &'a ClausewitzValue, key: &str) -> (r: Option<
    &'a ClausewitzValue,
>)
    ensures
        crate::clausewitz::opt_view(r) == government_entry(value_view(*country), key@),
{
    match direct_entry(country, "government") {
        Some(g) => direct_entry(g, key),
        None => None,
    }
}

fn first_atom_either(meta: &ClausewitzValue, game: &ClausewitzValue, key: &str) -> (r: Option<
    String,
>)
    ensures
        opt_str_view(r) == or_else(
            found_atom(value_view(*meta), key@),
            found_atom(value_view(*game), key@),
        ),
{
    match first_atom(meta, key) {
        Some(a) => Some(a),
        None => first_atom(game, key),
    }
}

/// Summarises a save from its parsed `meta` and `gamestate`.
/// A summary reads the save's truth flags as the save writes them:
/// `cheated_on_save` is false for `no`, `false` or `0` and true for `yes`,
/// `true` or `1`; so is `ironman` when the metadata holds it.
pub proof fn lemma_summary_truth_flags(s: SaveSummary, meta: SValue, game: SValue)
    requires
        save_summary_of(s, meta, game),
    ensures
        spec_find_value(game, "cheated_on_save"@) matches Some(SValue::Atom(a)) ==> {
            &&& (a == "no"@ || a == "false"@ || a == "0"@ ==> s.cheated_on_save == Some(false))
            &&& (a == "yes"@ || a == "true"@ || a == "1"@ ==> s.cheated_on_save == Some(true))
        },
        spec_find_value(meta, "ironman"@) matches Some(SValue::Atom(a)) ==> {
            &&& (a == "no"@ || a == "false"@ || a == "0"@ ==> s.ironman == Some(false))
            &&& (a == "yes"@ || a == "true"@ || a == "1"@ ==> s.ironman == Some(true))
        },
{
    if let Some(SValue::Atom(a)) = spec_find_value(game, "cheated_on_save"@) {
        crate::clausewitz::lemma_truth_words(a, Seq::empty());
    }
    if let Some(SValue::Atom(a)) = spec_find_value(meta, "ironman"@) {
        crate::clausewitz::lemma_truth_words(a, Seq::empty());
    }
}

/// A summary takes the version, date, name and ironman flag from the save's
/// metadata when it holds them, and from the gamestate only when it does
/// not; the cheat flag comes from the gamestate alone.
pub proof fn lemma_summary_prefers_metadata(s: SaveSummary, meta: SValue, game: SValue)
    requires
        save_summary_of(s, meta, game),
    ensures
        found_atom(meta, "version"@) is Some ==> opt_str_view(s.version) == found_atom(meta, "version"@),
        found_atom(meta, "version"@) is None ==> opt_str_view(s.version) == found_atom(game, "version"@),
        found_atom(meta, "date"@) is Some ==> opt_str_view(s.date) == found_atom(meta, "date"@),
        found_atom(meta, "date"@) is None ==> opt_str_view(s.date) == found_atom(game, "date"@),
        found_atom(meta, "name"@) is Some ==> opt_str_view(s.name) == found_atom(meta, "name"@),
        found_atom(meta, "name"@) is None ==> opt_str_view(s.name) == found_atom(game, "name"@),
        found_bool(meta, "ironman"@) is Some ==> s.ironman == found_bool(meta, "ironman"@),
        found_bool(meta, "ironman"@) is None ==> s.ironman == found_bool(game, "ironman"@),
        s.cheated_on_save == found_bool(game, "cheated_on_save"@),
{
}

pub fn summarize_save(meta_root: &ClausewitzValue, game_root: &ClausewitzValue) -> (r: SaveSummary)
    ensures
        save_summary_of(r, value_view(*meta_root), value_view(*game_root)),
{
    let mut summary = SaveSummary {
        version: first_atom_either(meta_root, game_root, "version"),
        date: first_atom_either(meta_root, game_root, "date"),
        name: first_atom_either(meta_root, game_root, "name"),
        required_dlcs: atoms_or_empty_exec(find_value_by_key(meta_root, "required_dlcs")),
        ironman: match first_bool(meta_root, "ironman") {
            Some(b) => Some(b),
            None => first_bool(game_root, "ironman"),
        },
        cheated_on_save: first_bool(game_root, "cheated_on_save"),
        player_country: match find_value_by_key(game_root, "player") {
            Some(p) => first_atom(p, "country"),
            None => None,
        },
        authority: None,
        government_type: None,
        origin: None,
        ethics: Vec::new(),
        civics: Vec::new(),
        founder_species_ref: None,
        founder_species_class: None,
        founder_species_portrait: None,
        founder_species_traits: Vec::new(),
        ruler_traits: Vec::new(),
        discovery: None,
        progression: None,
        actions: None,
    };
    let ghost game = value_view(*game_root);
    let country = match &summary.player_country {
        Some(id) => match direct_entry(game_root, "country") {
            Some(root) => match direct_entry(root, id.as_str()) {
                Some(c) => Some((id.clone(), c)),
                None => None,
            },
            None => None,
        },
        None => None,
    };
    proof {
        assert(match country {
            Some(pair) => player_block(game) == Some((pair.0@, value_view(*pair.1))),
            None => player_block(game) is None,
        });
    }
    if let Some((id, c)) = country {
        summary.authority = atom_of_exec(
            either(government_entry_exec(c, "authority"), direct_entry(c, "authority")),
        );
        summary.government_type = atom_of_exec(
            either(government_entry_exec(c, "type"), direct_entry(c, "government_type")),
        );
        summary.origin = atom_of_exec(
            either(government_entry_exec(c, "origin"), direct_entry(c, "origin")),
        );
        summary.ethics = atoms_or_empty_exec(either(direct_entry(c, "ethos"), direct_entry(c, "ethics")));
        summary.civics = atoms_or_empty_exec(
            either(government_entry_exec(c, "civics"), direct_entry(c, "civics")),
        );
        summary.founder_species_ref = atom_of_exec(
            either(
                direct_entry(c, "founder_species_ref"),
                either(direct_entry(c, "founder_species"), direct_entry(c, "species")),
            ),
        );
        summary.discovery = Some(extract_discovery_facts(game_root, c));
        summary.progression = Some(extract_progression_counts(game_root, c));
        summary.actions = Some(extract_action_facts(game_root, c, id.as_str()));
    }
    let species = match &summary.founder_species_ref {
        Some(r) => match direct_entry(game_root, "species_db") {
            Some(db) => direct_entry(db, r.as_str()),
            None => None,
        },
        None => None,
    };
    proof {
        assert(crate::clausewitz::opt_view(species) == species_block(
            game,
            opt_str_view(summary.founder_species_ref),
        ));
    }
    if let Some(sp) = species {
        summary.founder_species_class = atom_of_exec(
            either(direct_entry(sp, "class"), direct_entry(sp, "species_class")),
        );
        summary.founder_species_portrait = atom_of_exec(direct_entry(sp, "portrait"));
        summary.founder_species_traits = atoms_or_empty_exec(direct_entry(sp, "traits"));
    }
    summary
}

/// What reading and parsing a save archive gives.
pub enum SaveRead {
    Parsed(SValue, SValue),
    Meta(EntryRead),
    Gamestate(EntryRead),
    MetaParse(ParseError),
    GamestateParse(ParseError),
}

/// Reads `meta`, then `gamestate`, then parses both, stopping at the first
/// failure.
pub open spec fn spec_save_read(archive: Seq<u8>) -> SaveRead {
    match spec_entry_read(archive, "meta"@, MAX_META_BYTES) {
        EntryRead::Text(m) => match spec_entry_read(archive, "gamestate"@, MAX_GAMESTATE_BYTES) {
            EntryRead::Text(g) => match spec_parse_clausewitz(m) {
                Ok(mv) => match spec_parse_clausewitz(g) {
                    Ok(gv) => SaveRead::Parsed(mv, gv),
                    Err(e) => SaveRead::GamestateParse(e),
                },
                Err(e) => SaveRead::MetaParse(e),
            },
            other => SaveRead::Gamestate(other),
        },
        other => SaveRead::Meta(other),
    }
}

/// Reads the `meta` and `gamestate` entries of a save archive held in
/// memory and parses both.
pub fn read_save_roots(archive: &[u8]) -> (r: Result<(ClausewitzValue, ClausewitzValue), SaveError>)
    ensures
        match (r, spec_save_read(archive@)) {
            (Ok((m, g)), SaveRead::Parsed(mv, gv)) => value_view(m) == mv && value_view(g) == gv,
            (Err(e), SaveRead::Meta(read)) => entry_error(e, read, "meta"@, MAX_META_BYTES),
            (Err(e), SaveRead::Gamestate(read)) => entry_error(
                e,
                read,
                "gamestate"@,
                MAX_GAMESTATE_BYTES,
            ),
            (Err(SaveError::Parse(e)), SaveRead::MetaParse(pe)) => e == pe,
            (Err(SaveError::Parse(e)), SaveRead::GamestateParse(pe)) => e == pe,
            _ => false,
        },
{
    let meta = read_entry_text(archive, "meta", MAX_META_BYTES)?;
    let gamestate = read_entry_text(archive, "gamestate", MAX_GAMESTATE_BYTES)?;
    let meta_root = match parse_clausewitz(meta.as_str()) {
        Ok(v) => v,
        Err(e) => return Err(SaveError::Parse(e)),
    };
    let game_root = match parse_clausewitz(gamestate.as_str()) {
        Ok(v) => v,
        Err(e) => return Err(SaveError::Parse(e)),
    };
    Ok((meta_root, game_root))
}

/// Reads a save archive held in memory and summarises it.
pub fn parse_save_bytes(archive: &[u8]) -> (r: Result<SaveSummary, SaveError>)
    ensures
        match (r, spec_save_read(archive@)) {
            (Ok(s), SaveRead::Parsed(m, g)) => save_summary_of(s, m, g),
            (Err(e), SaveRead::Meta(read)) => entry_error(e, read, "meta"@, MAX_META_BYTES),
            (Err(e), SaveRead::Gamestate(read)) => entry_error(
                e,
                read,
                "gamestate"@,
                MAX_GAMESTATE_BYTES,
            ),
            (Err(SaveError::Parse(e)), SaveRead::MetaParse(pe)) => e == pe,
            (Err(SaveError::Parse(e)), SaveRead::GamestateParse(pe)) => e == pe,
            _ => false,
        },
{
    let (meta_root, game_root) = read_save_roots(archive)?;
    Ok(summarize_save(&meta_root, &game_root))
}

} // verus!
