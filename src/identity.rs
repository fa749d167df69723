use crate::store::{MemoryStore, StoreView};
use vstd::prelude::*;

verus! {

/// The length of a generated token.
pub const TOKEN_LEN: usize = 21;

/// A character of nanoid's URL-safe alphabet.
pub open spec fn is_token_char(c: char) -> bool {
    ('a' <= c && c <= 'z') || ('A' <= c && c <= 'Z') || ('0' <= c && c <= '9') || c == '_' || c == '-'
}

pub open spec fn is_token(t: Seq<char>) -> bool {
    t.len() == TOKEN_LEN && forall|i: int| 0 <= i < t.len() ==> is_token_char(#[trigger] t[i])
}

/// Relies on nanoid::format with nanoid::rngs::default and
/// nanoid::alphabet::SAFE: it returns exactly `size` characters, each drawn
/// from that alphabet. The characters themselves are random.
#[verifier::external_body]
fn random_token() -> (r: String)
    ensures
        is_token(r@),
{
    nanoid::format(nanoid::rngs::default, &nanoid::alphabet::SAFE, TOKEN_LEN)
}

pub open spec fn spec_worker_identity(token: Seq<char>) -> Seq<char> {
    "pointguard:"@ + token
}

/// The identity a worker connection registers under.
pub fn worker_identity(token: &str) -> (r: String)
    ensures
        r@ == spec_worker_identity(token@),
{
    let prefix = String::from_str("pointguard:");
    prefix.concat(token)
}

/// A random task name, for a task enqueued without one.
pub fn generate_nanoid() -> (r: String)
    ensures
        is_token(r@),
{
    random_token()
}

/// The name a new task is stored under: the given one, or a random token.
pub fn task_name_or_generated(name: Option<String>) -> (r: String)
    ensures
        match name {
            Some(n) => r == n,
            None => is_token(r@),
        },
{
    match name {
        Some(n) => n,
        None => generate_nanoid(),
    }
}

/// Opens a worker connection on the store under a fresh random identity and
/// returns that identity, which is live from then on.
pub fn connect(store: &mut MemoryStore) -> (w: String)
    ensures
        exists|t: Seq<char>| is_token(t) && w@ == spec_worker_identity(t),
        final(store)@ == (StoreView { live: old(store)@.live.insert(w@), ..old(store)@ }),
{
    let token = random_token();
    let w = worker_identity(token.as_str());
    store.register_worker(w.clone());
    w
}

} // verus!
