use vstd::prelude::*;
use vstd::string::StrSliceExecFns;

verus! {

/// One input row: `author` posted `count` comments in `subreddit`.
pub struct DataRecord {
    pub count: u32,
    pub subreddit: String,
    pub author: String,
}

impl DataRecord {
    /// A field-by-field copy.
    pub fn duplicate(&self) -> (r: DataRecord)
        ensures
            r == *self,
    {
        DataRecord { count: self.count, subreddit: self.subreddit.clone(), author: self.author.clone() }
    }
}

/// The community names of a sequence of records, in order.
pub open spec fn communities_of(rs: Seq<DataRecord>) -> Seq<Seq<char>> {
    rs.map_values(|r: DataRecord| r.subreddit@)
}

/// The lower-case form of a string, as `str::to_lowercase` computes it.
pub uninterp spec fn lower_of(s: Seq<char>) -> Seq<char>;

/// Relies on `str::to_lowercase`: the result depends on the characters alone.
#[verifier::external_body]
fn lowercase(s: &str) -> (r: String)
    ensures
        r@ == lower_of(s@),
{
    s.to_lowercase()
}

/// Name that the source data gives to deleted accounts.
pub open spec fn deleted_name() -> Seq<char> {
    seq!['[', 'd', 'e', 'l', 'e', 't', 'e', 'd', ']']
}

/// Name of the automated moderation account.
pub open spec fn moderator_name() -> Seq<char> {
    seq!['A', 'u', 't', 'o', 'M', 'o', 'd', 'e', 'r', 'a', 't', 'o', 'r']
}

/// Whether a sequence ends with `bot`.
pub open spec fn ends_with_bot(s: Seq<char>) -> bool {
    s.len() >= 3 && s.subrange(s.len() - 3, s.len() as int) == seq!['b', 'o', 't']
}

/// Whether a record by `author` with `count` comments survives exclusion,
/// where `lowered` is the lower-case form of `author`.
pub open spec fn keeps_author(author: Seq<char>, lowered: Seq<char>, count: u32, min_count_bot_exclusion: i32) -> bool {
    &&& author != deleted_name()
    &&& author != moderator_name()
    &&& !(count > min_count_bot_exclusion && ends_with_bot(lowered))
}

/// Whether a record survives the exclusion of deleted accounts, the moderation
/// account and busy accounts whose name ends in "bot" in any case.
pub open spec fn is_valid(r: DataRecord, min_count_bot_exclusion: i32) -> bool {
    keeps_author(r.author@, lower_of(r.author@), r.count, min_count_bot_exclusion)
}

/// Whether `s` ends with `bot`.
fn has_bot_suffix(s: &str) -> (r: bool)
    ensures
        r == ends_with_bot(s@),
{
    let n = s.unicode_len();
    if n < 3 {
        return false;
    }
    let b = s.get_char(n - 3);
    let o = s.get_char(n - 2);
    let t = s.get_char(n - 1);
    let r = b == 'b' && o == 'o' && t == 't';
    proof {
        let tail = s@.subrange(n - 3, n as int);
        if r {
            assert(tail =~= seq!['b', 'o', 't']);
        } else {
            assert(tail[0] == b && tail[1] == o && tail[2] == t);
        }
    }
    r
}

/// The exclusion rule, given the lower-case form of the author's name.
pub fn is_valid_lowered(author: &String, lowered: &String, count: u32, min_count_bot_exclusion: i32) -> (r: bool)
    ensures
        r == keeps_author(author@, lowered@, count, min_count_bot_exclusion),
{
    let deleted = "[deleted]".to_owned();
    let moderator = "AutoModerator".to_owned();
    proof {
        reveal_strlit("[deleted]");
        reveal_strlit("AutoModerator");
        assert(deleted@ =~= deleted_name());
        assert(moderator@ =~= moderator_name());
    }
    let busy = count as i64 > min_count_bot_exclusion as i64;
    let bot_suffix = has_bot_suffix(lowered.as_str());
    *author != deleted && *author != moderator && !(busy && bot_suffix)
}

/// Whether `record` survives the exclusion filter.
pub fn is_valid_record(record: &DataRecord, min_count_bot_exclusion: i32) -> (r: bool)
    ensures
        r == is_valid(*record, min_count_bot_exclusion),
{
    let lowered = lowercase(record.author.as_str());
    is_valid_lowered(&record.author, &lowered, record.count, min_count_bot_exclusion)
}

} // verus!
