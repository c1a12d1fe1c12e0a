//! What the command line gives, turned into what the codec takes: masks from
//! their letters, and the name of the file to write from that of the file
//! read.

use crate::color_channel::Channel;
use vstd::prelude::*;
use vstd::string::*;

verus! {

/// The lower-case form of a text, as `str::to_lowercase` gives it.
pub uninterp spec fn lowercase_of(text: Seq<char>) -> Seq<char>;

/// `str::to_lowercase`: the lower-case form of `text`, which depends on
/// `text` alone.
#[verifier::external_body]
fn to_lowercase(text: &str) -> (r: String)
    ensures
        r@ == lowercase_of(text@),
{
    text.to_lowercase()
}

/// `str::contains` with a `char` as the pattern: whether `c` occurs in
/// `text`.
#[verifier::external_body]
fn contains_char(text: &str, c: char) -> (r: bool)
    ensures
        r == text@.contains(c),
{
    text.contains(c)
}

/// The mask that a word of lower-case letters stands for: each of `r`, `g`,
/// `b`, `a` that occurs in it marks its component.
pub open spec fn channel_of(letters: Seq<char>) -> Channel {
    Channel {
        red: letters.contains('r'),
        green: letters.contains('g'),
        blue: letters.contains('b'),
        alpha: letters.contains('a'),
    }
}

/// The mask that a word of lower-case letters stands for.
pub fn parse_channel(letters: &str) -> (r: Channel)
    ensures
        r == channel_of(letters@),
{
    Channel {
        red: contains_char(letters, 'r'),
        green: contains_char(letters, 'g'),
        blue: contains_char(letters, 'b'),
        alpha: contains_char(letters, 'a'),
    }
}

/// The masks that a list of words stands for, one for each word, whatever
/// the case of its letters.
pub fn build_channels(channels: Vec<String>) -> (r: Vec<Channel>)
    ensures
        r@.len() == channels@.len(),
        forall|i: int|
            0 <= i < channels@.len() ==> #[trigger] r@[i] == channel_of(lowercase_of(channels@[i]@)),
{
    let mut result: Vec<Channel> = Vec::new();
    let mut i: usize = 0;
    while i < channels.len()
        invariant
            i <= channels@.len(),
            result@.len() == i,
            forall|j: int|
                0 <= j < i ==> #[trigger] result@[j] == channel_of(lowercase_of(channels@[j]@)),
        decreases channels@.len() - i,
    {
        let lowercase = to_lowercase(channels[i].as_str());
        result.push(parse_channel(lowercase.as_str()));
        i += 1;
    }
    result
}

/// The place of the last `.` in `name`, or -1 where it has none.
pub open spec fn last_dot(name: Seq<char>) -> int
    decreases name.len(),
{
    if name.len() == 0 {
        -1
    } else if name.last() == '.' {
        name.len() - 1
    } else {
        last_dot(name.drop_last())
    }
}

/// The name of the file to write for the file `input`: `-out` goes in before
/// the last `.`; a name without one becomes the extension of an empty name.
pub open spec fn out_name(input: Seq<char>) -> Seq<char> {
    let dot = last_dot(input);
    let marker = seq!['-', 'o', 'u', 't', '.'];
    if dot < 0 {
        marker + input
    } else {
        input.subrange(0, dot) + marker + input.subrange(dot + 1, input.len() as int)
    }
}

/// The name of the file to write for the file `input`.
pub fn create_out_name(input: &str) -> (r: String)
    ensures
        r@ == out_name(input@),
{
    let len = input.unicode_len();
    let mut found = false;
    let mut dot: usize = 0;
    let mut i: usize = 0;
    while i < len
        invariant
            i <= len,
            len == input@.len(),
            found ==> dot < i && last_dot(input@.subrange(0, i as int)) == dot,
            !found ==> last_dot(input@.subrange(0, i as int)) == -1,
        decreases len - i,
    {
        proof {
            assert(input@.subrange(0, i + 1).drop_last() =~= input@.subrange(0, i as int));
        }
        if input.get_char(i) == '.' {
            found = true;
            dot = i;
        }
        i += 1;
    }
    proof {
        assert(input@.subrange(0, len as int) =~= input@);
        reveal_strlit("-out.");
        reveal_strlit("");
        assert("-out."@ =~= seq!['-', 'o', 'u', 't', '.']);
    }
    let (name, ext) = if found {
        (input.substring_char(0, dot), input.substring_char(dot + 1, len))
    } else {
        ("", input)
    };
    let mut result = String::from_str(name);
    result.append("-out.");
    result.append(ext);
    proof {
        assert(result@ =~= out_name(input@));
    }
    result
}

} // verus!
