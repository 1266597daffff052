//! A stored post, the text that shows it, and how a run of posts is cut
//! into replies that stay under the message size limit.
use vstd::prelude::*;

verus! {

/// chrono's `NaiveDateTime`, which a post carries as its time stamp and
/// which nothing here reads.
#[verifier::external_type_specification]
#[verifier::external_body]
pub struct ExNaiveDateTime(chrono::NaiveDateTime);

/// One stored post.
#[derive(Debug)]
pub struct Res {
    pub no: i32,
    pub name_and_trip: String,
    pub datetime: chrono::NaiveDateTime,
    pub datetime_text: String,
    pub id: String,
    pub main_text: String,
    pub main_text_html: String,
    /// The drawing attached to the post, if any.
    pub oekaki_id: Option<i32>,
}

/// The character of the decimal digit `d`.
pub open spec fn digit_char(d: int) -> char {
    seq!['0', '1', '2', '3', '4', '5', '6', '7', '8', '9'][d]
}

/// The decimal digits of `n`, without leading zeros.
pub open spec fn natural_text(n: nat) -> Seq<char>
    decreases n,
{
    if n < 10 {
        seq![digit_char(n as int)]
    } else {
        natural_text(n / 10) + seq![digit_char((n % 10) as int)]
    }
}

/// `n` in decimal, with a `-` in front where it is negative.
pub open spec fn decimal_text(n: int) -> Seq<char> {
    if n < 0 {
        seq!['-'] + natural_text((-n) as nat)
    } else {
        natural_text(n as nat)
    }
}

/// The text that shows `r` in a reply: a header line with its number,
/// name, date and poster id, then its body.
pub open spec fn post_text(r: Res) -> Seq<char> {
    "### __"@ + decimal_text(r.no as int) + " "@ + r.name_and_trip@ + " "@ + r.datetime_text@
        + " ID: "@ + r.id@ + "__\n"@ + r.main_text@ + "\n"@
}

fn digit_str(d: u32) -> (r: &'static str)
    requires
        d < 10,
    ensures
        r@ == seq![digit_char(d as int)],
{
    match d {
        0 => {
            proof {
                reveal_strlit("0");
            }
            "0"
        },
        1 => {
            proof {
                reveal_strlit("1");
            }
            "1"
        },
        2 => {
            proof {
                reveal_strlit("2");
            }
            "2"
        },
        3 => {
            proof {
                reveal_strlit("3");
            }
            "3"
        },
        4 => {
            proof {
                reveal_strlit("4");
            }
            "4"
        },
        5 => {
            proof {
                reveal_strlit("5");
            }
            "5"
        },
        6 => {
            proof {
                reveal_strlit("6");
            }
            "6"
        },
        7 => {
            proof {
                reveal_strlit("7");
            }
            "7"
        },
        8 => {
            proof {
                reveal_strlit("8");
            }
            "8"
        },
        _ => {
            proof {
                reveal_strlit("9");
            }
            "9"
        },
    }
}

fn push_natural(out: &mut String, n: u32)
    ensures
        final(out)@ == old(out)@ + natural_text(n as nat),
    decreases n,
{
    if n >= 10 {
        push_natural(out, n / 10);
    }
    out.append(digit_str(n % 10));
}

/// Appends `n` in decimal to `out`.
pub fn push_decimal(out: &mut String, n: i32)
    ensures
        final(out)@ == old(out)@ + decimal_text(n as int),
{
    if n < 0 {
        proof {
            reveal_strlit("-");
        }
        out.append("-");
        push_natural(out, (-(n as i64)) as u32);
    } else {
        push_natural(out, n as u32);
    }
}

impl Res {
    /// The text that shows this post in a reply; see `post_text`.
    pub fn render(&self) -> (r: String)
        ensures
            r@ == post_text(*self),
    {
        let mut s = String::from_str("### __");
        push_decimal(&mut s, self.no);
        s.append(" ");
        s.append(self.name_and_trip.as_str());
        s.append(" ");
        s.append(self.datetime_text.as_str());
        s.append(" ID: ");
        s.append(self.id.as_str());
        s.append("__\n");
        s.append(self.main_text.as_str());
        s.append("\n");
        s
    }
}


/// The number of bytes that `c` takes in UTF-8, as `char::len_utf8` gives it.
pub open spec fn char_width(c: char) -> nat {
    let u = c as u32;
    if u < 0x80 {
        1
    } else if u < 0x800 {
        2
    } else if u < 0x10000 {
        3
    } else {
        4
    }
}

/// The number of bytes that `s` takes in UTF-8.
pub open spec fn byte_len(s: Seq<char>) -> nat
    decreases s.len(),
{
    if s.len() == 0 {
        0
    } else {
        byte_len(s.drop_last()) + char_width(s.last())
    }
}

proof fn lemma_byte_len_concat(a: Seq<char>, b: Seq<char>)
    ensures
        byte_len(a + b) == byte_len(a) + byte_len(b),
    decreases b.len(),
{
    if b.len() > 0 {
        assert((a + b).drop_last() =~= a + b.drop_last());
        lemma_byte_len_concat(a, b.drop_last());
    }
}

/// The largest number of bytes that one text reply may hold before it is
/// sent and a new one is started.
pub const REPLY_LIMIT: usize = 1800;

/// `byte_len(s)`, or `REPLY_LIMIT + 1` where it is larger: enough to decide
/// whether two texts together pass the limit.
pub open spec fn capped_len(s: Seq<char>) -> nat {
    if byte_len(s) > REPLY_LIMIT {
        (REPLY_LIMIT + 1) as nat
    } else {
        byte_len(s)
    }
}

fn char_len_utf8(c: char) -> (r: usize)
    ensures
        r == char_width(c),
{
    let u = c as u32;
    if u < 0x80 {
        1
    } else if u < 0x800 {
        2
    } else if u < 0x10000 {
        3
    } else {
        4
    }
}

fn capped_width(s: &str) -> (r: usize)
    ensures
        r == capped_len(s@),
{
    let n = s.unicode_len();
    let mut count: usize = 0;
    let mut i: usize = 0;
    while i < n
        invariant
            n == s@.len(),
            i <= n,
            count == byte_len(s@.take(i as int)),
            count <= REPLY_LIMIT,
        decreases n - i,
    {
        let c = s.get_char(i);
        assert(s@.take(i + 1).drop_last() =~= s@.take(i as int));
        count = count + char_len_utf8(c);
        i = i + 1;
        if count > REPLY_LIMIT {
            proof {
                lemma_byte_len_concat(s@.take(i as int), s@.skip(i as int));
                assert(s@.take(i as int) + s@.skip(i as int) =~= s@);
            }
            return REPLY_LIMIT + 1;
        }
    }
    assert(s@.take(n as int) =~= s@);
    count
}

/// One message of a reply: a text, or an image given by its address.
#[derive(Debug, PartialEq, Eq)]
pub enum Outgoing {
    Text(String),
    Image(String),
}

/// What an `Outgoing` holds, as character sequences.
pub enum Sending {
    Text(Seq<char>),
    Image(Seq<char>),
}

impl View for Outgoing {
    type V = Sending;

    open spec fn view(&self) -> Sending {
        match self {
            Outgoing::Text(s) => Sending::Text(s@),
            Outgoing::Image(s) => Sending::Image(s@),
        }
    }
}

/// The address of the drawing `id`: the prefix, the number, `.png`.
pub open spec fn image_url(prefix: Seq<char>, id: i32) -> Seq<char> {
    prefix + decimal_text(id as int) + ".png"@
}

/// A text message holding `t`, or nothing where `t` is empty.
pub open spec fn text_unless_empty(t: Seq<char>) -> Seq<Sending> {
    if t.len() == 0 {
        Seq::empty()
    } else {
        seq![Sending::Text(t)]
    }
}

/// The messages that show `posts`, given the text `pending` that is not
/// sent yet.
///
/// Post texts are joined into one text message until the next one would
/// take it past `REPLY_LIMIT` bytes; then the text so far is sent and a new
/// one begins. A post with a drawing sends the text so far, the post's own
/// included, and then the drawing's address.
pub open spec fn batches(posts: Seq<Res>, prefix: Seq<char>, pending: Seq<char>) -> Seq<Sending>
    decreases posts.len(),
{
    if posts.len() == 0 {
        text_unless_empty(pending)
    } else {
        let text = post_text(posts[0]);
        let full = pending.len() > 0 && byte_len(pending) + byte_len(text) > REPLY_LIMIT;
        let sent: Seq<Sending> = if full {
            seq![Sending::Text(pending)]
        } else {
            Seq::empty()
        };
        let joined = if full {
            text
        } else {
            pending + text
        };
        match posts[0].oekaki_id {
            None => sent + batches(posts.drop_first(), prefix, joined),
            Some(id) => sent + text_unless_empty(joined) + seq![
                Sending::Image(image_url(prefix, id)),
            ] + batches(posts.drop_first(), prefix, Seq::empty()),
        }
    }
}

/// The messages that show `posts` in order; see `batches`.
pub fn plan_replies(posts: &Vec<Res>, image_url_prefix: &str) -> (r: Vec<Outgoing>)
    ensures
        r@.map_values(|o: Outgoing| o@) == batches(posts@, image_url_prefix@, Seq::empty()),
{
    let ghost prefix = image_url_prefix@;
    let mut out: Vec<Outgoing> = Vec::new();
    let mut pending = String::new();
    let mut pending_width: usize = 0;
    let mut k: usize = 0;
    assert(posts@.skip(0) =~= posts@);
    assert(out@.map_values(|o: Outgoing| o@) =~= Seq::<Sending>::empty());
    while k < posts.len()
        invariant
            k <= posts@.len(),
            prefix == image_url_prefix@,
            pending_width == capped_len(pending@),
            batches(posts@, prefix, Seq::empty()) == out@.map_values(|o: Outgoing| o@) + batches(
                posts@.skip(k as int),
                prefix,
                pending@,
            ),
        decreases posts@.len() - k,
    {
        let ghost before = out@.map_values(|o: Outgoing| o@);
        let ghost rest = posts@.skip(k as int);
        assert(rest[0] == posts@[k as int]);
        assert(rest.drop_first() =~= posts@.skip(k + 1));
        let text = posts[k].render();
        let text_width = capped_width(text.as_str());
        let full = !pending.as_str().is_empty() && pending_width + text_width > REPLY_LIMIT;
        let ghost sent: Seq<Sending> = if full {
            seq![Sending::Text(pending@)]
        } else {
            Seq::empty()
        };
        if full {
            out.push(Outgoing::Text(pending));
            pending = String::new();
            pending_width = 0;
        }
        assert(out@.map_values(|o: Outgoing| o@) =~= before + sent);
        let ghost joined_before = pending@;
        pending.append(text.as_str());
        proof {
            lemma_byte_len_concat(joined_before, text@);
        }
        pending_width = if pending_width + text_width > REPLY_LIMIT {
            REPLY_LIMIT + 1
        } else {
            pending_width + text_width
        };
        match posts[k].oekaki_id {
            None => {},
            Some(id) => {
                let ghost mid = out@.map_values(|o: Outgoing| o@);
                if !pending.as_str().is_empty() {
                    out.push(Outgoing::Text(pending));
                    pending = String::new();
                }
                pending_width = 0;
                let mut url = String::from_str(image_url_prefix);
                push_decimal(&mut url, id);
                proof {
                    reveal_strlit(".png");
                }
                url.append(".png");
                out.push(Outgoing::Image(url));
                assert(out@.map_values(|o: Outgoing| o@) =~= mid + text_unless_empty(
                    joined_before + text@,
                ) + seq![Sending::Image(image_url(prefix, id))]);
            },
        }
        k = k + 1;
    }
    assert(out@.map_values(|o: Outgoing| o@) + text_unless_empty(pending@) == batches(
        posts@,
        prefix,
        Seq::empty(),
    ));
    if !pending.as_str().is_empty() {
        let ghost before = out@.map_values(|o: Outgoing| o@);
        out.push(Outgoing::Text(pending));
        assert(out@.map_values(|o: Outgoing| o@) =~= before + text_unless_empty(pending@));
    } else {
        assert(out@.map_values(|o: Outgoing| o@) + text_unless_empty(pending@) =~= out@.map_values(
            |o: Outgoing| o@,
        ));
    }
    out
}

} // verus!
