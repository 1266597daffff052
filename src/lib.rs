//! Range expressions over post numbers: a lenient parser for the
//! comma-separated mini-language (`10,20-25,^23,?324,?^326`) and a resolver
//! that turns the parsed specifications into an ascending list of numbers.
//!
//! - `text`: white space, trimming and integer reading on characters.
//! - `range_spec`: the specification type and the grammar, stated as spec
//!   functions.
//! - `parser`: the parser, proved to follow that grammar.
//! - `resolver`: relative anchoring, resolution, and the laws it obeys.
//! - `post`: a stored post, its rendering, and how posts are cut into
//!   replies under the size limit.
//! - `session`: the steps of one request, from message text to reply.

pub mod parser;
pub mod post;
pub mod range_spec;
pub mod resolver;
pub mod session;
pub mod text;

pub use parser::parse_range_specifications;
pub use range_spec::RangeSpec;
pub use resolver::{calculate_post_numbers, needs_upper_bound, relative_to_absolute};
pub use post::{plan_replies, Outgoing, Res, REPLY_LIMIT};
pub use session::{clean_content, step, Action, Event, Session};
