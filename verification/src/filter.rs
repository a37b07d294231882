//! Asset filters: which assets a deployment accepts, their textual form
//! (`a`, `g:<key>`, `c:<key>`), and its reading.

use vstd::prelude::*;

use std::str::FromStr;

verus! {

/// What assets are accepted: everything, one collection group, or one creator.
#[derive(Debug, Clone, PartialEq, Eq)]
pub enum Filter {
    All,
    Group { group_id: [u8; 32] },
    Creator { creator_id: [u8; 32] },
}

/// Mathematical image of a `Filter`.
pub ghost enum FilterModel {
    All,
    Group(Seq<u8>),
    Creator(Seq<u8>),
}

impl View for Filter {
    type V = FilterModel;

    open spec fn view(&self) -> FilterModel {
        match *self {
            Filter::All => FilterModel::All,
            Filter::Group { group_id } => FilterModel::Group(group_id@),
            Filter::Creator { creator_id } => FilterModel::Creator(creator_id@),
        }
    }
}

impl Default for Filter {
    fn default() -> (r: Self)
        ensures
            r == Filter::All,
    {
        Filter::All
    }
}

/// Why a filter string was rejected.
#[derive(Debug, Clone, Copy, PartialEq, Eq, Structural)]
pub enum FilterParseError {
    UnknownKind,
    MissingKey,
    InvalidKey,
}

/// The base58 reading of a candidate key: the 32 decoded bytes, or nothing
/// when the text is not the base58 form of exactly 32 bytes.
pub uninterp spec fn pubkey_of_base58(s: Seq<char>) -> Option<Seq<u8>>;

/// Relies on `solana_sdk::pubkey::Pubkey::from_str`: base58 decoding into a
/// 32-byte key, an outcome that depends on the characters alone.
#[verifier::external_body]
fn decode_base58_key(s: &str) -> (r: Option<[u8; 32]>)
    ensures
        match r {
            Some(k) => pubkey_of_base58(s@) == Some(k@),
            None => pubkey_of_base58(s@) is None,
        },
{
    match solana_sdk::pubkey::Pubkey::from_str(s) {
        Ok(pk) => Some(pk.to_bytes()),
        Err(_) => None,
    }
}

/// The base58 text of a 32-byte key.
pub uninterp spec fn base58_of(key: Seq<u8>) -> Seq<char>;

/// Relies on `solana_sdk::pubkey::Pubkey`'s `Display` implementation: base58
/// encoding of the key bytes, a pure function of them. Also relies on
/// `Pubkey::from_str` decoding that encoding back to the same 32 bytes (the
/// base58 round trip, within the parser's 44-character bound), and on the
/// base58 alphabet holding no `:`.
#[verifier::external_body]
fn encode_base58_key(key: &[u8; 32]) -> (r: String)
    ensures
        r@ == base58_of(key@),
        pubkey_of_base58(r@) == Some(key@),
        forall|i: int| 0 <= i < r@.len() ==> r@[i] != ':',
{
    solana_sdk::pubkey::Pubkey::new_from_array(*key).to_string()
}

/// Length of the leading run of characters before the first `:`.
pub open spec fn spec_segment_len(s: Seq<char>) -> int
    decreases s.len(),
{
    if s.len() == 0 {
        0
    } else if s.first() == ':' {
        0
    } else {
        1 + spec_segment_len(s.drop_first())
    }
}

proof fn lemma_segment_len_bounds(s: Seq<char>)
    ensures
        0 <= spec_segment_len(s) <= s.len(),
    decreases s.len(),
{
    if s.len() != 0 && s.first() != ':' {
        lemma_segment_len_bounds(s.drop_first());
    }
}

proof fn lemma_segment_len_of(s: Seq<char>, i: int)
    requires
        0 <= i <= s.len(),
        forall|t: int| 0 <= t < i ==> s[t] != ':',
        i == s.len() || s[i] == ':',
    ensures
        spec_segment_len(s) == i,
    decreases i,
{
    if i == 0 {
    } else {
        assert(s[0] != ':');
        lemma_segment_len_of(s.drop_first(), i - 1);
    }
}

/// The reading of a filter string: its first `:`-separated piece names the
/// kind (`a` for everything, `g` for a group keyed by the second piece);
/// anything else is rejected with the reason.
pub open spec fn spec_parse_filter(s: Seq<char>) -> Result<FilterModel, FilterParseError> {
    let seg = spec_segment_len(s);
    if seg == 1 && s[0] == 'a' {
        Ok(FilterModel::All)
    } else if seg == 1 && s[0] == 'g' {
        if seg == s.len() {
            Err(FilterParseError::MissingKey)
        } else {
            let after = s.skip(2);
            let key_text = after.take(spec_segment_len(after));
            match pubkey_of_base58(key_text) {
                Some(k) => Ok(FilterModel::Group(k)),
                None => Err(FilterParseError::InvalidKey),
            }
        }
    } else {
        Err(FilterParseError::UnknownKind)
    }
}

impl Filter {
    /// Reads the textual form. An `a` head accepts everything (any tail is
    /// ignored); a `g` head takes the second piece as a base58 group key;
    /// anything else is a typed rejection rather than an abort.
    pub fn parse(s: &str) -> (r: Result<Filter, FilterParseError>)
        ensures
            match r {
                Ok(f) => spec_parse_filter(s@) == Ok::<FilterModel, FilterParseError>(f@),
                Err(e) => spec_parse_filter(s@) == Err::<FilterModel, FilterParseError>(e),
            },
    {
        let n = s.unicode_len();
        proof {
            lemma_segment_len_bounds(s@);
        }
        if n == 0 {
            return Err(FilterParseError::UnknownKind);
        }
        let c0 = s.get_char(0);
        let head_is_single = c0 != ':' && (n == 1 || s.get_char(1) == ':');
        proof {
            if c0 == ':' {
                assert(spec_segment_len(s@) == 0);
            } else if n == 1 || s@[1] == ':' {
                assert(s@.drop_first().len() == 0 || s@.drop_first().first() == ':');
                assert(spec_segment_len(s@.drop_first()) == 0);
                assert(spec_segment_len(s@) == 1);
            } else {
                assert(s@.drop_first().first() != ':' && s@.drop_first().len() != 0);
                lemma_segment_len_bounds(s@.drop_first().drop_first());
                assert(spec_segment_len(s@.drop_first()) >= 1);
                assert(spec_segment_len(s@) >= 2);
            }
        }
        if head_is_single && c0 == 'a' {
            return Ok(Filter::All);
        }
        if head_is_single && c0 == 'g' {
            if n == 1 {
                return Err(FilterParseError::MissingKey);
            }
            let mut j: usize = 2;
            while j < n && s.get_char(j) != ':'
                invariant
                    2 <= j <= n,
                    n == s@.len(),
                    forall|t: int| 2 <= t < j ==> s@[t] != ':',
                decreases n - j,
            {
                j += 1;
            }
            let key_text = s.substring_char(2, j);
            proof {
                let after = s@.skip(2);
                assert(forall|t: int| 0 <= t < j - 2 ==> after[t] != ':');
                assert(j - 2 == after.len() || after[j - 2] == ':');
                lemma_segment_len_of(after, j - 2);
                assert(key_text@ =~= after.take(spec_segment_len(after)));
            }
            return match decode_base58_key(key_text) {
                Some(k) => Ok(Filter::Group { group_id: k }),
                None => Err(FilterParseError::InvalidKey),
            };
        }
        Err(FilterParseError::UnknownKind)
    }
}

/// The textual form of a filter.
pub open spec fn spec_filter_text(m: FilterModel) -> Seq<char> {
    match m {
        FilterModel::All => "a"@,
        FilterModel::Group(k) => "g:"@ + base58_of(k),
        FilterModel::Creator(k) => "c:"@ + base58_of(k),
    }
}

/// Law: the textual form of the all-filter parses back to it.
pub proof fn lemma_filter_text_all_round_trip()
    ensures
        spec_parse_filter(spec_filter_text(FilterModel::All)) == Ok::<
            FilterModel,
            FilterParseError,
        >(FilterModel::All),
{
    reveal_strlit("a");
    let s = spec_filter_text(FilterModel::All);
    assert(s.len() == 1 && s[0] == 'a');
    lemma_segment_len_of(s, 1);
}

/// Law: the textual form of a group filter parses back to the same key,
/// granted that decoding inverts the encoding and that the encoded text
/// holds no `:` — the two facts the encoder's contract gives its callers.
pub proof fn lemma_filter_text_group_round_trip(key: Seq<u8>)
    requires
        pubkey_of_base58(base58_of(key)) == Some(key),
        forall|i: int| 0 <= i < base58_of(key).len() ==> base58_of(key)[i] != ':',
    ensures
        spec_parse_filter(spec_filter_text(FilterModel::Group(key))) == Ok::<
            FilterModel,
            FilterParseError,
        >(FilterModel::Group(key)),
{
    reveal_strlit("g:");
    let s = spec_filter_text(FilterModel::Group(key));
    assert("g:"@.len() == 2 && "g:"@[0] == 'g' && "g:"@[1] == ':');
    assert(s[0] == 'g' && s[1] == ':');
    lemma_segment_len_of(s, 1);
    let after = s.skip(2);
    assert(after =~= base58_of(key));
    assert(forall|i: int| 0 <= i < after.len() ==> after[i] != ':');
    lemma_segment_len_of(after, after.len() as int);
    assert(after.take(after.len() as int) =~= after);
}

/// Law: the textual form of a creator filter is rejected with a typed error
/// rather than read back: only the `a` and `g` kinds are parsable.
pub proof fn lemma_filter_text_creator_rejected(key: Seq<u8>)
    ensures
        spec_parse_filter(spec_filter_text(FilterModel::Creator(key))) == Err::<
            FilterModel,
            FilterParseError,
        >(FilterParseError::UnknownKind),
{
    reveal_strlit("c:");
    let s = spec_filter_text(FilterModel::Creator(key));
    assert("c:"@.len() == 2 && "c:"@[0] == 'c' && "c:"@[1] == ':');
    assert(s[0] == 'c' && s[1] == ':');
    lemma_segment_len_of(s, 1);
}

impl Filter {
    /// The textual form: `a`, `g:<key>`, or `c:<key>`.
    pub fn to_text(&self) -> (r: String)
        ensures
            r@ == spec_filter_text(self@),
    {
        match self {
            Filter::All => "a".to_owned(),
            Filter::Group { group_id } => {
                let mut out = "g:".to_owned();
                let enc = encode_base58_key(group_id);
                out.append(enc.as_str());
                out
            },
            Filter::Creator { creator_id } => {
                let mut out = "c:".to_owned();
                let enc = encode_base58_key(creator_id);
                out.append(enc.as_str());
                out
            },
        }
    }
}

} // verus!
