//! Voice connections by guild and voice states by user, in concurrent maps.

use crate::voice::{ConnectionView, VoiceConnection, VoiceState, VoiceStateView};
use dashmap::DashMap;
use vstd::prelude::*;

verus! {

/// The concurrent map of `dashmap`.
#[verifier::external_type_specification]
#[verifier::external_body]
#[verifier::reject_recursive_types(K)]
#[verifier::reject_recursive_types(V)]
#[verifier::reject_recursive_types(S)]
pub struct ExDashMap<K, V, S>(DashMap<K, V, S>);

/// The voice connections that a map holds, by guild.
pub uninterp spec fn connections_in(m: DashMap<String, VoiceConnection>) -> Map<
    Seq<char>,
    ConnectionView,
>;

/// The voice states that a map holds, by user.
pub uninterp spec fn states_in(m: DashMap<String, VoiceState>) -> Map<Seq<char>, VoiceStateView>;

/// No voice connections.
pub open spec fn no_connections() -> Map<Seq<char>, ConnectionView> {
    Map::empty()
}

/// No voice states.
pub open spec fn no_states() -> Map<Seq<char>, VoiceStateView> {
    Map::empty()
}

/// `DashMap::new` makes a map that holds nothing.
#[verifier::external_body]
pub(crate) fn new_connections() -> (r: DashMap<String, VoiceConnection>)
    ensures
        connections_in(r) == no_connections(),
{
    DashMap::new()
}

/// `DashMap::insert` puts a value under a key, in place of one that was there.
#[verifier::external_body]
pub(crate) fn insert_connection(
    m: &mut DashMap<String, VoiceConnection>,
    guild_id: String,
    connection: VoiceConnection,
)
    ensures
        connections_in(*final(m)) == connections_in(*old(m)).insert(guild_id@, connection@),
{
    m.insert(guild_id, connection);
}

/// `DashMap::get` finds the value under a key; it is handed out as a copy.
#[verifier::external_body]
pub(crate) fn get_connection(m: &DashMap<String, VoiceConnection>, guild_id: &str) -> (r: Option<
    VoiceConnection,
>)
    ensures
        match r {
            Some(c) => connections_in(*m).dom().contains(guild_id@)
                && connections_in(*m)[guild_id@] == c@,
            None => !connections_in(*m).dom().contains(guild_id@),
        },
{
    m.get(guild_id).map(|c| c.copy())
}

/// `DashMap::remove` takes out what is under a key, if there is anything.
#[verifier::external_body]
pub(crate) fn remove_connection(m: &mut DashMap<String, VoiceConnection>, guild_id: &str)
    ensures
        connections_in(*final(m)) == connections_in(*old(m)).remove(guild_id@),
{
    m.remove(guild_id);
}

/// `DashMap::new` makes a map that holds nothing.
#[verifier::external_body]
pub(crate) fn new_states() -> (r: DashMap<String, VoiceState>)
    ensures
        states_in(r) == no_states(),
{
    DashMap::new()
}

/// `DashMap::insert` puts a value under a key, in place of one that was there.
#[verifier::external_body]
pub(crate) fn insert_state(m: &mut DashMap<String, VoiceState>, user_id: String, state: VoiceState)
    ensures
        states_in(*final(m)) == states_in(*old(m)).insert(user_id@, state@),
{
    m.insert(user_id, state);
}

/// `DashMap::get` finds the value under a key; it is handed out as a copy.
#[verifier::external_body]
pub(crate) fn get_state(m: &DashMap<String, VoiceState>, user_id: &str) -> (r: Option<VoiceState>)
    ensures
        match r {
            Some(s) => states_in(*m).dom().contains(user_id@) && states_in(*m)[user_id@] == s@,
            None => !states_in(*m).dom().contains(user_id@),
        },
{
    m.get(user_id).map(|s| s.copy())
}

} // verus!
