//! Cache keying: the canonical hash key under which external collaborators
//! memoize search results, and the file name derived from it.
use vstd::prelude::*;

use sha2::Digest;
use sha2::Sha256;

use crate::eval::EvaluatorType;
use crate::notation::push_char;

verus! {

/// The 64 lowercase hex digits of the SHA-256 digest of `bytes`: a function
/// of the input bytes alone.
pub uninterp spec fn sha256_hex_of(bytes: Seq<u8>) -> Seq<char>;

/// Relies on sha2's `Sha256` through `Digest::digest`, and on the lowercase
/// hex formatting of its 32-byte output: two hex digits per digest byte,
/// 64 characters in all, depending on the input bytes alone.
#[verifier::external_body]
fn sha256_hex(bytes: &Vec<u8>) -> (r: String)
    ensures
        r@ == sha256_hex_of(bytes@),
        r@.len() == 64,
{
    let digest = Sha256::digest(bytes.as_slice());
    format!("{:x}", digest)
}

/// The decimal digit characters of `n`.
pub open spec fn dec_chars(n: int) -> Seq<char>
    decreases n,
{
    if n < 10 {
        seq![((48 + n) as u8) as char]
    } else {
        dec_chars(n / 10).push(((48 + n % 10) as u8) as char)
    }
}

/// Render `n` in decimal.
fn u64_to_string(n: u64) -> (r: String)
    ensures
        r@ == dec_chars(n as int),
    decreases n,
{
    if n < 10 {
        let mut s = String::new();
        push_char(&mut s, (48 + n as u8) as char);
        s
    } else {
        let mut s = u64_to_string(n / 10);
        push_char(&mut s, (48 + (n % 10) as u8) as char);
        s
    }
}

/// The name of an evaluation strategy, as mixed into the cache key.
pub open spec fn evaluator_name(ev: EvaluatorType) -> Seq<char> {
    if ev == EvaluatorType::Advanced {
        "Advanced"@
    } else {
        "Classic"@
    }
}

/// The text whose digest keys a cache entry: the serialized position, the
/// timeout, the thread count, and the evaluation strategy.
pub open spec fn key_chars(
    board_state: Seq<char>,
    timeout_secs: u64,
    threads: Option<usize>,
    evaluator: EvaluatorType,
) -> Seq<char> {
    board_state + "timeout:"@ + dec_chars(timeout_secs as int) + "threads:"@ + dec_chars(
        match threads {
            Some(t) => t as int,
            None => 0,
        },
    ) + "evaluator:"@ + evaluator_name(evaluator)
}

/// Derivation of the keys under which search results are memoized by the
/// external file cache.
pub struct Cache {
    pub cache_dir: String,
}

impl Cache {
    /// A cache rooted at the collaborators' fixed directory.
    pub fn new() -> (r: Cache)
        ensures
            r.cache_dir@ == "/tmp/chess.cache"@,
    {
        Cache { cache_dir: String::from_str("/tmp/chess.cache") }
    }

    /// The cache key for a position, timeout, thread count, and evaluation
    /// strategy: the hex SHA-256 digest of their canonical rendering.
    pub fn generate_key(
        &self,
        board_state: &str,
        timeout_secs: u64,
        threads: Option<usize>,
        evaluator: EvaluatorType,
    ) -> (r: String)
        ensures
            r@ == sha256_hex_of(
                vstd::utf8::encode_utf8(
                    key_chars(board_state@, timeout_secs, threads, evaluator),
                ),
            ),
            r@.len() == 64,
    {
        let mut material = String::from_str(board_state);
        material.append("timeout:");
        let t = u64_to_string(timeout_secs);
        material.append(t.as_str());
        material.append("threads:");
        let n = u64_to_string(
            match threads {
                Some(t) => t as u64,
                None => 0,
            },
        );
        material.append(n.as_str());
        material.append("evaluator:");
        material.append(
            match evaluator {
                EvaluatorType::Advanced => "Advanced",
                EvaluatorType::Classic => "Classic",
            },
        );
        proof {
            assert(material@ == key_chars(board_state@, timeout_secs, threads, evaluator));
        }
        let bytes = material.as_str().as_bytes_vec();
        sha256_hex(&bytes)
    }

    /// The file name under which a key's result is stored.
    pub fn get_path(&self, cache_key: &str) -> (r: String)
        ensures
            r@ == self.cache_dir@ + "/"@ + cache_key@ + ".json"@,
    {
        let mut p = self.cache_dir.clone();
        p.append("/");
        p.append(cache_key);
        p.append(".json");
        p
    }
}

} // verus!
