//! The match-file document model and its textual encoding.
//!
//! A match file is a mapping whose single tracked key, `matches`, holds an
//! ordered sequence of trigger/replace pairs.  `serialize` emits the shape
//!
//! ```text
//! matches:
//! - trigger: "<escaped>"
//!   replace: "<escaped>"
//! ```
//!
//! with `matches: []` for the empty document, every scalar double-quoted and
//! the characters `\`, `"`, newline, carriage return and tab escaped.
//!
//! `parse` reads that shape back tolerantly: item lines may be indented,
//! blank lines are skipped, the last line need not be closed by a newline,
//! and a scalar may stand plain (unquoted) as well as double-quoted.
//! Within a pair block unknown keys are ignored and a missing `trigger` or
//! `replace` defaults to the empty string; any other deviation is a format
//! error.  `lemma_parse_serialize` proves the round-trip law for every
//! document.

use crate::text::{find_char, lacks_char, starts_with};
use crate::EditError;
use vstd::prelude::*;

verus! {

/// One trigger/replace substitution rule.
#[derive(Debug)]
pub struct MatchPair {
    pub trigger: String,
    pub replace: String,
}

/// The mathematical value of a pair: its two character sequences.
pub ghost struct PairModel {
    pub trigger: Seq<char>,
    pub replace: Seq<char>,
}

impl View for MatchPair {
    type V = PairModel;

    open spec fn view(&self) -> PairModel {
        PairModel { trigger: self.trigger@, replace: self.replace@ }
    }
}

/// The value of a sequence of pairs, element by element.
pub open spec fn pair_views(s: Seq<MatchPair>) -> Seq<PairModel> {
    Seq::new(s.len(), |i: int| s[i]@)
}

/// An ordered list of substitution rules; structural equality of the views
/// is what "dirty" means for an edit session.
#[derive(Debug)]
pub struct MatchDocument {
    pub matches: Vec<MatchPair>,
}

impl View for MatchDocument {
    type V = Seq<PairModel>;

    open spec fn view(&self) -> Seq<PairModel> {
        pair_views(self.matches@)
    }
}

/// The pair both of whose fields are empty.
pub open spec fn empty_pair() -> PairModel {
    PairModel { trigger: Seq::empty(), replace: Seq::empty() }
}

impl MatchPair {
    /// A pair with two empty fields.
    pub fn empty() -> (r: MatchPair)
        ensures
            r@ == empty_pair(),
    {
        MatchPair { trigger: String::new(), replace: String::new() }
    }

    /// A structural copy.
    pub fn duplicate(&self) -> (r: MatchPair)
        ensures
            r@ == self@,
    {
        MatchPair { trigger: self.trigger.clone(), replace: self.replace.clone() }
    }
}

impl MatchDocument {
    /// The empty document.
    pub fn new() -> (r: MatchDocument)
        ensures
            r@ == Seq::<PairModel>::empty(),
    {
        let r = MatchDocument { matches: Vec::new() };
        proof {
            assert(r@ =~= Seq::<PairModel>::empty());
        }
        r
    }

    /// A structural copy.
    pub fn duplicate(&self) -> (r: MatchDocument)
        ensures
            r@ == self@,
    {
        let mut matches: Vec<MatchPair> = Vec::new();
        let mut i: usize = 0;
        while i < self.matches.len()
            invariant
                i <= self.matches@.len(),
                matches@.len() == i,
                forall|k: int| 0 <= k < i ==> (#[trigger] matches@[k])@ == self.matches@[k]@,
            decreases self.matches@.len() - i,
        {
            matches.push(self.matches[i].duplicate());
            i = i + 1;
        }
        let r = MatchDocument { matches };
        proof {
            assert(r@ =~= self@);
        }
        r
    }

    /// True exactly when the two documents are structurally equal.
    pub fn eq_doc(&self, other: &MatchDocument) -> (r: bool)
        ensures
            r == (self@ == other@),
    {
        if self.matches.len() != other.matches.len() {
            proof {
                assert(self@.len() != other@.len());
            }
            return false;
        }
        let mut i: usize = 0;
        while i < self.matches.len()
            invariant
                i <= self.matches@.len(),
                self.matches@.len() == other.matches@.len(),
                forall|k: int| 0 <= k < i ==> #[trigger] self@[k] == other@[k],
            decreases self.matches@.len() - i,
        {
            let a = &self.matches[i];
            let b = &other.matches[i];
            if !(a.trigger == b.trigger) || !(a.replace == b.replace) {
                proof {
                    assert(self@[i as int] == a@ && other@[i as int] == b@);
                }
                return false;
            }
            proof {
                assert(self@[i as int] == a@ && other@[i as int] == b@);
            }
            i = i + 1;
        }
        proof {
            assert(self@ =~= other@);
        }
        true
    }
}

// ---------------------------------------------------------------------------
// Scalar escaping
// ---------------------------------------------------------------------------
/// The encoding of one character inside a double-quoted scalar.
pub open spec fn escape_char(c: char) -> Seq<char> {
    if c == '\\' {
        seq!['\\', '\\']
    } else if c == '"' {
        seq!['\\', '"']
    } else if c == '\n' {
        seq!['\\', 'n']
    } else if c == '\r' {
        seq!['\\', 'r']
    } else if c == '\t' {
        seq!['\\', 't']
    } else {
        seq![c]
    }
}

/// The encoding of a whole scalar, character by character.
pub open spec fn escape_seq(s: Seq<char>) -> Seq<char>
    decreases s.len(),
{
    if s.len() == 0 {
        Seq::empty()
    } else {
        escape_char(s[0]) + escape_seq(s.skip(1))
    }
}

/// A scalar as it stands in a line: its escaped form between double quotes.
pub open spec fn quoted(s: Seq<char>) -> Seq<char> {
    seq!['"'] + escape_seq(s) + seq!['"']
}

/// The character an escape code stands for, if the code is valid.
pub open spec fn unescape_code(c: char) -> Option<char> {
    if c == '\\' {
        Some('\\')
    } else if c == '"' {
        Some('"')
    } else if c == 'n' {
        Some('\n')
    } else if c == 'r' {
        Some('\r')
    } else if c == 't' {
        Some('\t')
    } else {
        None
    }
}

/// Decoding of the inside of a double-quoted scalar.
pub open spec fn unescape_seq(s: Seq<char>) -> Option<Seq<char>>
    decreases s.len(),
{
    if s.len() == 0 {
        Some(Seq::empty())
    } else if s[0] == '\\' {
        if s.len() == 1 {
            None
        } else {
            match unescape_code(s[1]) {
                Some(c) => match unescape_seq(s.skip(2)) {
                    Some(r) => Some(seq![c] + r),
                    None => None,
                },
                None => None,
            }
        }
    } else if s[0] == '"' {
        None
    } else {
        match unescape_seq(s.skip(1)) {
            Some(r) => Some(seq![s[0]] + r),
            None => None,
        }
    }
}

/// Decoding of a complete double-quoted scalar.
pub open spec fn unquote(s: Seq<char>) -> Option<Seq<char>> {
    if s.len() >= 2 && s[0] == '"' && s[s.len() - 1] == '"' {
        unescape_seq(s.subrange(1, s.len() - 1))
    } else {
        None
    }
}

// ---------------------------------------------------------------------------
// Lines of the encoded document
// ---------------------------------------------------------------------------
/// The key of a trigger field.
pub open spec fn trigger_key() -> Seq<char> {
    seq!['t', 'r', 'i', 'g', 'g', 'e', 'r']
}

/// The key of a replace field.
pub open spec fn replace_key() -> Seq<char> {
    seq!['r', 'e', 'p', 'l', 'a', 'c', 'e']
}

/// The header line that opens a non-empty document.
pub open spec fn header_line() -> Seq<char> {
    seq!['m', 'a', 't', 'c', 'h', 'e', 's', ':']
}

/// The single line an empty document consists of.
pub open spec fn empty_header_line() -> Seq<char> {
    seq!['m', 'a', 't', 'c', 'h', 'e', 's', ':', ' ', '[', ']']
}

/// The two characters that open a pair block.
pub open spec fn dash_prefix() -> Seq<char> {
    seq!['-', ' ']
}

/// The indentation the serializer puts before a block's second line.
pub open spec fn indent_prefix() -> Seq<char> {
    seq![' ', ' ']
}

/// The separator between a key and its value.
pub open spec fn colon_sp() -> Seq<char> {
    seq![':', ' ']
}

/// The line carrying a pair's trigger, without its newline.
pub open spec fn trig_line(t: Seq<char>) -> Seq<char> {
    dash_prefix() + trigger_key() + colon_sp() + quoted(t)
}

/// The line carrying a pair's replace, without its newline.
pub open spec fn repl_line(r: Seq<char>) -> Seq<char> {
    indent_prefix() + replace_key() + colon_sp() + quoted(r)
}

/// The two lines of one pair block.
pub open spec fn pair_lines(p: PairModel) -> Seq<Seq<char>> {
    seq![trig_line(p.trigger), repl_line(p.replace)]
}

/// The lines of all pair blocks of a document, in order.
pub open spec fn lines_of_pairs(d: Seq<PairModel>) -> Seq<Seq<char>>
    decreases d.len(),
{
    if d.len() == 0 {
        Seq::empty()
    } else {
        pair_lines(d[0]) + lines_of_pairs(d.skip(1))
    }
}

// ---------------------------------------------------------------------------
// Serialization
// ---------------------------------------------------------------------------
/// The encoded text of one pair block.
pub open spec fn serialize_pair(p: PairModel) -> Seq<char> {
    trig_line(p.trigger) + seq!['\n'] + repl_line(p.replace) + seq!['\n']
}

/// The encoded text of all pair blocks, in order.
pub open spec fn serialize_pairs(d: Seq<PairModel>) -> Seq<char>
    decreases d.len(),
{
    if d.len() == 0 {
        Seq::empty()
    } else {
        serialize_pair(d[0]) + serialize_pairs(d.skip(1))
    }
}

/// The encoded text of a whole document.
pub open spec fn serialize_doc(d: Seq<PairModel>) -> Seq<char> {
    if d.len() == 0 {
        empty_header_line() + seq!['\n']
    } else {
        header_line() + seq!['\n'] + serialize_pairs(d)
    }
}

// ---------------------------------------------------------------------------
// Parsing
// ---------------------------------------------------------------------------
/// Splits text into lines at each newline; a last line not closed by a
/// newline counts as a line of its own.
pub open spec fn split_lines(s: Seq<char>) -> Seq<Seq<char>>
    decreases s.len(),
{
    if s.len() == 0 {
        Seq::empty()
    } else {
        match find_char(s, '\n') {
            None => seq![s],
            Some(i) => if 0 <= i < s.len() {
                seq![s.take(i)] + split_lines(s.skip(i + 1))
            } else {
                seq![s]
            },
        }
    }
}

/// The line without its leading spaces.
pub open spec fn strip_indent(s: Seq<char>) -> Seq<char>
    decreases s.len(),
{
    if s.len() > 0 && s[0] == ' ' {
        strip_indent(s.skip(1))
    } else {
        s
    }
}

/// Every line holds nothing but spaces.
pub open spec fn all_blank(lines: Seq<Seq<char>>) -> bool
    decreases lines.len(),
{
    if lines.len() == 0 {
        true
    } else {
        strip_indent(lines[0]).len() == 0 && all_blank(lines.skip(1))
    }
}

/// Splits an indent-stripped field line into its key and its raw value; a
/// line ending right after the colon carries an empty value.
pub open spec fn parse_field(line: Seq<char>) -> Option<(Seq<char>, Seq<char>)> {
    match find_char(line, ':') {
        None => None,
        Some(i) => if i + 1 == line.len() {
            Some((line.take(i), Seq::<char>::empty()))
        } else if i + 2 <= line.len() && line[i + 1] == ' ' {
            Some((line.take(i), line.skip(i + 2)))
        } else {
            None
        },
    }
}

/// The scalar a raw field value stands for: a value opening with a double
/// quote must be a complete quoted scalar; any other value is taken plain,
/// as it stands.
pub open spec fn parse_value(v: Seq<char>) -> Option<Seq<char>> {
    if v.len() > 0 && v[0] == '"' {
        unquote(v)
    } else {
        Some(v)
    }
}

/// Applies one indent-stripped field line to the pair being built: a
/// `trigger` or `replace` key must carry a readable scalar; any other key
/// is ignored.
pub open spec fn apply_field(p: PairModel, line: Seq<char>) -> Option<PairModel> {
    match parse_field(line) {
        None => None,
        Some((key, val)) => if key == trigger_key() {
            match parse_value(val) {
                Some(t) => Some(PairModel { trigger: t, replace: p.replace }),
                None => None,
            }
        } else if key == replace_key() {
            match parse_value(val) {
                Some(r) => Some(PairModel { trigger: p.trigger, replace: r }),
                None => None,
            }
        } else {
            Some(p)
        },
    }
}

/// Reads pair blocks line by line, indentation and blank lines aside;
/// `cur` is the block currently open, which a dash line closes and a new
/// block replaces, and any other non-blank line extends.
pub open spec fn parse_items_acc(lines: Seq<Seq<char>>, cur: PairModel) -> Option<Seq<PairModel>>
    decreases lines.len(),
{
    if lines.len() == 0 {
        Some(seq![cur])
    } else {
        let t = strip_indent(lines[0]);
        if t.len() == 0 {
            parse_items_acc(lines.skip(1), cur)
        } else if starts_with(t, dash_prefix()) {
            match apply_field(empty_pair(), strip_indent(t.skip(2))) {
                Some(p) => match parse_items_acc(lines.skip(1), p) {
                    Some(ps) => Some(seq![cur] + ps),
                    None => None,
                },
                None => None,
            }
        } else {
            match apply_field(cur, t) {
                Some(p) => parse_items_acc(lines.skip(1), p),
                None => None,
            }
        }
    }
}

/// Reads the item lines that follow the header: blank lines first, then
/// the first pair block, which must open with a dash.
pub open spec fn parse_items(lines: Seq<Seq<char>>) -> Option<Seq<PairModel>>
    decreases lines.len(),
{
    if lines.len() == 0 {
        Some(Seq::empty())
    } else {
        let t = strip_indent(lines[0]);
        if t.len() == 0 {
            parse_items(lines.skip(1))
        } else if starts_with(t, dash_prefix()) {
            match apply_field(empty_pair(), strip_indent(t.skip(2))) {
                Some(p) => parse_items_acc(lines.skip(1), p),
                None => None,
            }
        } else {
            None
        }
    }
}

/// The document a text stands for, if it matches the expected shape.
pub open spec fn parse_doc(s: Seq<char>) -> Option<Seq<PairModel>> {
    let lines = split_lines(s);
    if lines.len() == 0 {
        None
    } else if lines[0] == empty_header_line() {
        if all_blank(lines.skip(1)) {
            Some(Seq::empty())
        } else {
            None
        }
    } else if lines[0] == header_line() {
        parse_items(lines.skip(1))
    } else {
        None
    }
}

// ---------------------------------------------------------------------------
// The round-trip law and its supporting lemmas
// ---------------------------------------------------------------------------
/// Escaping distributes over concatenation.
pub proof fn lemma_escape_concat(a: Seq<char>, b: Seq<char>)
    ensures
        escape_seq(a + b) == escape_seq(a) + escape_seq(b),
    decreases a.len(),
{
    if a.len() == 0 {
        assert(a + b =~= b);
        assert(escape_seq(a) + escape_seq(b) =~= escape_seq(b));
    } else {
        assert((a + b).len() > 0);
        assert((a + b)[0] == a[0]);
        assert((a + b).skip(1) =~= a.skip(1) + b);
        lemma_escape_concat(a.skip(1), b);
        assert(escape_char(a[0]) + (escape_seq(a.skip(1)) + escape_seq(b)) =~= (escape_char(a[0])
            + escape_seq(a.skip(1))) + escape_seq(b));
    }
}

/// No escaped scalar contains a newline.
pub proof fn lemma_escape_lacks_nl(s: Seq<char>)
    ensures
        lacks_char(escape_seq(s), '\n'),
    decreases s.len(),
{
    if s.len() == 0 {
    } else {
        lemma_escape_lacks_nl(s.skip(1));
        assert(lacks_char(escape_char(s[0]), '\n'));
        crate::text::lemma_lacks_concat(escape_char(s[0]), escape_seq(s.skip(1)), '\n');
    }
}

/// No quoted scalar contains a newline.
pub proof fn lemma_quoted_lacks_nl(s: Seq<char>)
    ensures
        lacks_char(quoted(s), '\n'),
{
    lemma_escape_lacks_nl(s);
    assert(lacks_char(seq!['"'], '\n'));
    crate::text::lemma_lacks_concat(seq!['"'], escape_seq(s), '\n');
    crate::text::lemma_lacks_concat(seq!['"'] + escape_seq(s), seq!['"'], '\n');
}

/// Neither line of a pair block contains a newline.
pub proof fn lemma_pair_lines_lack_nl(t: Seq<char>, r: Seq<char>)
    ensures
        lacks_char(trig_line(t), '\n'),
        lacks_char(repl_line(r), '\n'),
{
    lemma_quoted_lacks_nl(t);
    lemma_quoted_lacks_nl(r);
    assert(lacks_char(dash_prefix(), '\n'));
    assert(lacks_char(indent_prefix(), '\n'));
    assert(lacks_char(trigger_key(), '\n'));
    assert(lacks_char(replace_key(), '\n'));
    assert(lacks_char(colon_sp(), '\n'));
    crate::text::lemma_lacks_concat(dash_prefix(), trigger_key(), '\n');
    crate::text::lemma_lacks_concat(dash_prefix() + trigger_key(), colon_sp(), '\n');
    crate::text::lemma_lacks_concat(dash_prefix() + trigger_key() + colon_sp(), quoted(t), '\n');
    crate::text::lemma_lacks_concat(indent_prefix(), replace_key(), '\n');
    crate::text::lemma_lacks_concat(indent_prefix() + replace_key(), colon_sp(), '\n');
    crate::text::lemma_lacks_concat(indent_prefix() + replace_key() + colon_sp(), quoted(r), '\n');
}

/// Decoding inverts encoding on every scalar.
pub proof fn lemma_unescape_escape(s: Seq<char>)
    ensures
        unescape_seq(escape_seq(s)) == Some(s),
    decreases s.len(),
{
    if s.len() == 0 {
    } else {
        let c = s[0];
        let e = escape_seq(s);
        lemma_unescape_escape(s.skip(1));
        if c == '\\' || c == '"' || c == '\n' || c == '\r' || c == '\t' {
            assert(e[0] == '\\');
            assert(e[1] == escape_char(c)[1]);
            assert(e.skip(2) =~= escape_seq(s.skip(1)));
            assert(unescape_code(escape_char(c)[1]) == Some(c));
            assert(seq![c] + s.skip(1) =~= s);
        } else {
            assert(e[0] == c);
            assert(e.skip(1) =~= escape_seq(s.skip(1)));
            assert(seq![c] + s.skip(1) =~= s);
        }
    }
}

/// Unquoting inverts quoting on every scalar.
pub proof fn lemma_unquote_quoted(s: Seq<char>)
    ensures
        unquote(quoted(s)) == Some(s),
{
    let q = quoted(s);
    assert(q.len() == escape_seq(s).len() + 2);
    assert(q[0] == '"');
    assert(q[q.len() - 1] == '"');
    assert(q.subrange(1, q.len() - 1) =~= escape_seq(s));
    lemma_unescape_escape(s);
}

/// A trigger field line sets exactly the pair's trigger.
pub proof fn lemma_apply_trig(t: Seq<char>, p: PairModel)
    ensures
        apply_field(p, strip_indent(trig_line(t).skip(2))) == Some(
            PairModel { trigger: t, replace: p.replace },
        ),
{
    let content = trig_line(t).skip(2);
    assert(content =~= trigger_key() + colon_sp() + quoted(t));
    assert(content[0] == 't');
    assert(strip_indent(content) == content);
    assert(content[7] == ':');
    assert(content.take(7) =~= trigger_key());
    assert(lacks_char(trigger_key(), ':'));
    crate::text::lemma_find_char_at(content, ':', 7);
    assert(content.len() >= 11);
    assert(content[8] == ' ');
    assert(content.skip(9) =~= quoted(t));
    assert(quoted(t)[0] == '"');
    lemma_unquote_quoted(t);
}

/// A replace line, its indentation stripped, sets exactly the pair's
/// replace.
pub proof fn lemma_apply_repl(r: Seq<char>, p: PairModel)
    ensures
        apply_field(p, strip_indent(repl_line(r))) == Some(
            PairModel { trigger: p.trigger, replace: r },
        ),
{
    let l = repl_line(r);
    assert(l[0] == ' ');
    assert(strip_indent(l) == strip_indent(l.skip(1)));
    assert(l.skip(1)[0] == ' ');
    assert(strip_indent(l.skip(1)) == strip_indent(l.skip(1).skip(1)));
    let content = l.skip(1).skip(1);
    assert(content =~= replace_key() + colon_sp() + quoted(r));
    assert(content[0] == 'r');
    assert(strip_indent(content) == content);
    assert(content[7] == ':');
    assert(content.take(7) =~= replace_key());
    assert(lacks_char(replace_key(), ':'));
    crate::text::lemma_find_char_at(content, ':', 7);
    assert(content.len() >= 11);
    assert(content[8] == ' ');
    assert(content.skip(9) =~= quoted(r));
    assert(replace_key()[0] == 'r' && trigger_key()[0] == 't');
    assert(replace_key() != trigger_key());
    assert(quoted(r)[0] == '"');
    lemma_unquote_quoted(r);
}

/// After a dash line sets a block's trigger, the remaining lines of the
/// document close that block with its replace line and read the rest.
proof fn lemma_acc_tail(d: Seq<PairModel>, p: PairModel)
    requires
        d.len() > 0,
        p.trigger == d[0].trigger,
    ensures
        parse_items_acc(lines_of_pairs(d).skip(1), p) == Some(seq![d[0]] + d.skip(1)),
    decreases d.len(), 0nat,
{
    let rest = lines_of_pairs(d).skip(1);
    assert(rest =~= seq![repl_line(d[0].replace)] + lines_of_pairs(d.skip(1)));
    assert(rest[0] == repl_line(d[0].replace));
    let l = repl_line(d[0].replace);
    assert(l[0] == ' ');
    assert(strip_indent(l) == strip_indent(l.skip(1)));
    assert(l.skip(1)[0] == ' ');
    assert(strip_indent(l.skip(1)) == strip_indent(l.skip(1).skip(1)));
    let content = l.skip(1).skip(1);
    assert(content =~= replace_key() + colon_sp() + quoted(d[0].replace));
    assert(content[0] == 'r');
    assert(strip_indent(content) == content);
    assert(content.len() > 0);
    if starts_with(content, dash_prefix()) {
        assert(content.take(2)[0] == content[0]);
        assert(dash_prefix()[0] == '-');
        assert(false);
    }
    lemma_apply_repl(d[0].replace, p);
    let p2 = PairModel { trigger: p.trigger, replace: d[0].replace };
    assert(p2 == d[0]);
    assert(rest.skip(1) =~= lines_of_pairs(d.skip(1)));
    lemma_parse_items_acc(d.skip(1), p2);
    assert(seq![p2] + d.skip(1) =~= seq![d[0]] + d.skip(1));
}

/// Reading the lines of a document with a block `p` already open yields
/// `p` followed by that document's pairs.
proof fn lemma_parse_items_acc(d: Seq<PairModel>, p: PairModel)
    ensures
        parse_items_acc(lines_of_pairs(d), p) == Some(seq![p] + d),
    decreases d.len(), 1nat,
{
    let lines = lines_of_pairs(d);
    if d.len() == 0 {
        assert(lines.len() == 0);
        assert(seq![p] + d =~= seq![p]);
    } else {
        let t = d[0].trigger;
        assert(lines =~= pair_lines(d[0]) + lines_of_pairs(d.skip(1)));
        assert(lines[0] == trig_line(t));
        assert(trig_line(t)[0] == '-');
        assert(strip_indent(lines[0]) == lines[0]);
        assert(lines[0].len() > 0);
        assert(lines[0].take(2) =~= dash_prefix());
        assert(starts_with(lines[0], dash_prefix()));
        lemma_apply_trig(t, empty_pair());
        let p1 = PairModel { trigger: t, replace: Seq::empty() };
        lemma_acc_tail(d, p1);
        assert(lines.skip(1) == lines_of_pairs(d).skip(1));
        assert(seq![p] + (seq![d[0]] + d.skip(1)) =~= seq![p] + d);
    }
}

/// Reading the item lines of a document yields exactly its pairs.
proof fn lemma_parse_items(d: Seq<PairModel>)
    ensures
        parse_items(lines_of_pairs(d)) == Some(d),
{
    let lines = lines_of_pairs(d);
    if d.len() == 0 {
        assert(lines.len() == 0);
    } else {
        let t = d[0].trigger;
        assert(lines =~= pair_lines(d[0]) + lines_of_pairs(d.skip(1)));
        assert(lines[0] == trig_line(t));
        assert(trig_line(t)[0] == '-');
        assert(strip_indent(lines[0]) == lines[0]);
        assert(lines[0].len() > 0);
        assert(lines[0].take(2) =~= dash_prefix());
        assert(starts_with(lines[0], dash_prefix()));
        lemma_apply_trig(t, empty_pair());
        let p1 = PairModel { trigger: t, replace: Seq::empty() };
        lemma_acc_tail(d, p1);
        assert(seq![d[0]] + d.skip(1) =~= d);
    }
}

/// The encoded pair blocks split into exactly the block lines.
proof fn lemma_split_serialize_pairs(d: Seq<PairModel>)
    ensures
        split_lines(serialize_pairs(d)) == lines_of_pairs(d),
    decreases d.len(),
{
    if d.len() == 0 {
        assert(serialize_pairs(d).len() == 0);
        assert(lines_of_pairs(d) =~= Seq::<Seq<char>>::empty());
        assert(split_lines(serialize_pairs(d)) =~= Seq::<Seq<char>>::empty());
    } else {
        let t = d[0].trigger;
        let r = d[0].replace;
        lemma_split_serialize_pairs(d.skip(1));
        lemma_pair_lines_lack_nl(t, r);
        let tail = repl_line(r) + seq!['\n'] + serialize_pairs(d.skip(1));
        assert(serialize_pairs(d) =~= trig_line(t) + seq!['\n'] + tail);
        lemma_split_lines_cons(trig_line(t), tail);
        lemma_split_lines_cons(repl_line(r), serialize_pairs(d.skip(1)));
        assert(seq![trig_line(t)] + (seq![repl_line(r)] + lines_of_pairs(d.skip(1)))
            =~= lines_of_pairs(d));
    }
}

/// Splitting text that starts with a newline-free line and its newline
/// yields that line followed by the split of the rest.
pub proof fn lemma_split_lines_cons(line: Seq<char>, rest: Seq<char>)
    requires
        lacks_char(line, '\n'),
    ensures
        split_lines(line + seq!['\n'] + rest) == seq![line] + split_lines(rest),
{
    let s = line + seq!['\n'] + rest;
    assert(s.len() > 0);
    assert(s[line.len() as int] == '\n');
    assert(s.take(line.len() as int) =~= line);
    crate::text::lemma_find_char_at(s, '\n', line.len() as int);
    assert(s.skip(line.len() as int + 1) =~= rest);
}

/// Serialization is idempotent across a reparse: re-encoding whatever a
/// text parsed to yields a text that parses to the same document.
pub proof fn lemma_serialize_idempotent(x: Seq<char>, d: Seq<PairModel>)
    requires
        parse_doc(x) == Some(d),
    ensures
        parse_doc(serialize_doc(d)) == parse_doc(x),
{
    lemma_parse_serialize(d);
}

/// The round-trip law: parsing the encoding of any document yields that
/// document back.
pub proof fn lemma_parse_serialize(d: Seq<PairModel>)
    ensures
        parse_doc(serialize_doc(d)) == Some(d),
{
    if d.len() == 0 {
        assert(lacks_char(empty_header_line(), '\n'));
        lemma_split_lines_cons(empty_header_line(), Seq::empty());
        assert(serialize_doc(d) =~= empty_header_line() + seq!['\n'] + Seq::<char>::empty());
        assert(split_lines(Seq::<char>::empty()) =~= Seq::<Seq<char>>::empty());
        let lines = seq![empty_header_line()] + Seq::<Seq<char>>::empty();
        assert(lines.len() == 1);
        assert(lines[0] == empty_header_line());
        assert(lines.skip(1).len() == 0);
        assert(all_blank(lines.skip(1)));
    } else {
        assert(lacks_char(header_line(), '\n'));
        lemma_split_lines_cons(header_line(), serialize_pairs(d));
        lemma_split_serialize_pairs(d);
        let lines = seq![header_line()] + lines_of_pairs(d);
        assert(split_lines(serialize_doc(d)) == lines);
        assert(lines[0] == header_line());
        assert(header_line().len() == 8 && empty_header_line().len() == 11);
        assert(lines[0] != empty_header_line());
        assert(lines.skip(1) =~= lines_of_pairs(d));
        lemma_parse_items(d);
    }
}

// ---------------------------------------------------------------------------
// Executable serialization
// ---------------------------------------------------------------------------
/// Appends the quoted, escaped form of `s`.
fn push_quoted(out: &mut Vec<char>, s: &str)
    ensures
        final(out)@ == old(out)@ + quoted(s@),
{
    out.push('"');
    let n = s.unicode_len();
    let mut i: usize = 0;
    while i < n
        invariant
            i <= n,
            n == s@.len(),
            out@ == old(out)@ + seq!['"'] + escape_seq(s@.take(i as int)),
        decreases n - i,
    {
        let c = s.get_char(i);
        proof {
            lemma_escape_concat(s@.take(i as int), seq![s@[i as int]]);
            assert(s@.take(i + 1 as int) =~= s@.take(i as int) + seq![s@[i as int]]);
            assert(seq![s@[i as int]].skip(1) =~= Seq::<char>::empty());
            assert(escape_seq(seq![s@[i as int]].skip(1)) =~= Seq::<char>::empty());
            assert(escape_seq(seq![s@[i as int]]) =~= escape_char(s@[i as int]));
        }
        if c == '\\' {
            out.push('\\');
            out.push('\\');
        } else if c == '"' {
            out.push('\\');
            out.push('"');
        } else if c == '\n' {
            out.push('\\');
            out.push('n');
        } else if c == '\r' {
            out.push('\\');
            out.push('r');
        } else if c == '\t' {
            out.push('\\');
            out.push('t');
        } else {
            out.push(c);
        }
        proof {
            assert(out@ =~= old(out)@ + seq!['"'] + escape_seq(s@.take(i + 1 as int)));
        }
        i = i + 1;
    }
    out.push('"');
    proof {
        assert(s@.take(n as int) =~= s@);
        assert(out@ =~= old(out)@ + quoted(s@));
    }
}

/// Appends the two encoded lines of one pair.
fn push_pair(out: &mut Vec<char>, p: &MatchPair)
    ensures
        final(out)@ == old(out)@ + serialize_pair(p@),
{
    out.push('-');
    out.push(' ');
    out.push('t');
    out.push('r');
    out.push('i');
    out.push('g');
    out.push('g');
    out.push('e');
    out.push('r');
    out.push(':');
    out.push(' ');
    proof {
        assert(out@ =~= old(out)@ + (dash_prefix() + trigger_key() + colon_sp()));
    }
    let ghost stage1 = out@;
    push_quoted(out, trigger_str(p));
    proof {
        assert(out@ =~= old(out)@ + trig_line(p@.trigger));
    }
    out.push('\n');
    out.push(' ');
    out.push(' ');
    out.push('r');
    out.push('e');
    out.push('p');
    out.push('l');
    out.push('a');
    out.push('c');
    out.push('e');
    out.push(':');
    out.push(' ');
    proof {
        assert(out@ =~= old(out)@ + trig_line(p@.trigger) + seq!['\n'] + (indent_prefix()
            + replace_key() + colon_sp()));
    }
    push_quoted(out, replace_str(p));
    out.push('\n');
    proof {
        assert(out@ =~= old(out)@ + serialize_pair(p@));
    }
}

/// The trigger field as a borrowed slice.
fn trigger_str(p: &MatchPair) -> (r: &str)
    ensures
        r@ == p@.trigger,
{
    p.trigger.as_str()
}

/// The replace field as a borrowed slice.
fn replace_str(p: &MatchPair) -> (r: &str)
    ensures
        r@ == p@.replace,
{
    p.replace.as_str()
}

/// The encoded text of `doc`.
pub fn serialize(doc: &MatchDocument) -> (r: String)
    ensures
        r@ == serialize_doc(doc@),
{
    let mut out: Vec<char> = Vec::new();
    if doc.matches.len() == 0 {
        out.push('m');
        out.push('a');
        out.push('t');
        out.push('c');
        out.push('h');
        out.push('e');
        out.push('s');
        out.push(':');
        out.push(' ');
        out.push('[');
        out.push(']');
        out.push('\n');
        proof {
            assert(doc@.len() == 0);
            assert(out@ =~= serialize_doc(doc@));
        }
    } else {
        out.push('m');
        out.push('a');
        out.push('t');
        out.push('c');
        out.push('h');
        out.push('e');
        out.push('s');
        out.push(':');
        out.push('\n');
        proof {
            assert(out@ =~= header_line() + seq!['\n']);
        }
        let mut i: usize = 0;
        while i < doc.matches.len()
            invariant
                i <= doc.matches@.len(),
                doc.matches@.len() > 0,
                out@ == header_line() + seq!['\n'] + serialize_pairs(doc@.take(i as int)),
            decreases doc.matches@.len() - i,
        {
            push_pair(&mut out, &doc.matches[i]);
            proof {
                lemma_serialize_pairs_concat(doc@.take(i as int), seq![doc@[i as int]]);
                assert(doc@.take(i + 1 as int) =~= doc@.take(i as int) + seq![doc@[i as int]]);
                assert(seq![doc@[i as int]].skip(1) =~= Seq::<PairModel>::empty());
                assert(serialize_pairs(seq![doc@[i as int]].skip(1)) =~= Seq::<char>::empty());
                assert(serialize_pairs(seq![doc@[i as int]]) =~= serialize_pair(doc@[i as int]));
                assert(doc@[i as int] == doc.matches@[i as int]@);
                assert(out@ =~= header_line() + seq!['\n'] + serialize_pairs(
                    doc@.take(i + 1 as int),
                ));
            }
            i = i + 1;
        }
        proof {
            assert(doc@.take(doc.matches@.len() as int) =~= doc@);
            assert(doc@.len() > 0);
        }
    }
    crate::text::string_of(&out)
}

/// Encoding of pairs distributes over concatenation.
pub proof fn lemma_serialize_pairs_concat(a: Seq<PairModel>, b: Seq<PairModel>)
    ensures
        serialize_pairs(a + b) == serialize_pairs(a) + serialize_pairs(b),
    decreases a.len(),
{
    if a.len() == 0 {
        assert(a + b =~= b);
        assert(serialize_pairs(a) + serialize_pairs(b) =~= serialize_pairs(b));
    } else {
        assert((a + b).len() > 0);
        assert((a + b)[0] == a[0]);
        assert((a + b).skip(1) =~= a.skip(1) + b);
        lemma_serialize_pairs_concat(a.skip(1), b);
        assert(serialize_pair(a[0]) + (serialize_pairs(a.skip(1)) + serialize_pairs(b))
            =~= (serialize_pair(a[0]) + serialize_pairs(a.skip(1))) + serialize_pairs(b));
    }
}

// ---------------------------------------------------------------------------
// Executable parsing
// ---------------------------------------------------------------------------
/// The value of a vector of lines, line by line.
pub open spec fn line_views(ls: Seq<Vec<char>>) -> Seq<Seq<char>> {
    Seq::new(ls.len(), |i: int| ls[i]@)
}

/// Splits the text into its lines.
fn split_into_lines(cs: &Vec<char>) -> (r: Vec<Vec<char>>)
    ensures
        split_lines(cs@) == line_views(r@),
{
    let mut ls: Vec<Vec<char>> = Vec::new();
    let mut pos: usize = 0;
    proof {
        assert(cs@.skip(0) =~= cs@);
        assert(line_views(ls@) + split_lines(cs@) =~= split_lines(cs@));
    }
    while pos < cs.len()
        invariant
            pos <= cs@.len(),
            split_lines(cs@) == line_views(ls@) + split_lines(cs@.skip(pos as int)),
        decreases cs@.len() - pos,
    {
        match crate::text::find_from(cs, pos, '\n') {
            None => {
                let line = crate::text::copy_range(cs, pos, cs.len());
                proof {
                    let suf = cs@.skip(pos as int);
                    assert(suf.len() > 0);
                    assert(suf =~= cs@.subrange(pos as int, cs@.len() as int));
                }
                ls.push(line);
                proof {
                    assert(line_views(ls@) =~= line_views(ls@.take(ls@.len() - 1)).push(
                        cs@.subrange(pos as int, cs@.len() as int),
                    ));
                    assert(split_lines(cs@) =~= line_views(ls@));
                }
                return ls;
            },
            Some(j) => {
                let line = crate::text::copy_range(cs, pos, j);
                proof {
                    let suf = cs@.skip(pos as int);
                    assert(suf.len() > 0);
                    assert(suf.take(j - pos) =~= cs@.subrange(pos as int, j as int));
                    assert(suf.skip(j - pos + 1) =~= cs@.skip(j + 1 as int));
                }
                ls.push(line);
                proof {
                    assert(line_views(ls@) =~= line_views(ls@.take(ls@.len() - 1)).push(
                        cs@.subrange(pos as int, j as int),
                    ));
                    assert(line_views(ls@.take(ls@.len() - 1)) + (seq![
                        cs@.subrange(pos as int, j as int),
                    ] + split_lines(cs@.skip(j + 1 as int))) =~= line_views(ls@) + split_lines(
                        cs@.skip(j + 1 as int),
                    ));
                }
                pos = j + 1;
            },
        }
    }
    proof {
        assert(cs@.skip(pos as int).len() == 0);
        assert(line_views(ls@) + Seq::<Seq<char>>::empty() =~= line_views(ls@));
    }
    ls
}

/// The characters of the `trigger` key.
fn trigger_key_vec() -> (r: Vec<char>)
    ensures
        r@ == trigger_key(),
{
    let mut v: Vec<char> = Vec::new();
    v.push('t');
    v.push('r');
    v.push('i');
    v.push('g');
    v.push('g');
    v.push('e');
    v.push('r');
    proof {
        assert(v@ =~= trigger_key());
    }
    v
}

/// The characters of the `replace` key.
fn replace_key_vec() -> (r: Vec<char>)
    ensures
        r@ == replace_key(),
{
    let mut v: Vec<char> = Vec::new();
    v.push('r');
    v.push('e');
    v.push('p');
    v.push('l');
    v.push('a');
    v.push('c');
    v.push('e');
    proof {
        assert(v@ =~= replace_key());
    }
    v
}

/// The characters of the header line.
fn header_vec() -> (r: Vec<char>)
    ensures
        r@ == header_line(),
{
    let mut v: Vec<char> = Vec::new();
    v.push('m');
    v.push('a');
    v.push('t');
    v.push('c');
    v.push('h');
    v.push('e');
    v.push('s');
    v.push(':');
    proof {
        assert(v@ =~= header_line());
    }
    v
}

/// The characters of the empty-document line.
fn empty_header_vec() -> (r: Vec<char>)
    ensures
        r@ == empty_header_line(),
{
    let mut v: Vec<char> = Vec::new();
    v.push('m');
    v.push('a');
    v.push('t');
    v.push('c');
    v.push('h');
    v.push('e');
    v.push('s');
    v.push(':');
    v.push(' ');
    v.push('[');
    v.push(']');
    proof {
        assert(v@ =~= empty_header_line());
    }
    v
}

/// Decodes the escaped scalar body in `s[a..b]`.
fn unescape_range(s: &Vec<char>, a: usize, b: usize) -> (r: Option<Vec<char>>)
    requires
        a <= b <= s@.len(),
    ensures
        match r {
            Some(v) => unescape_seq(s@.subrange(a as int, b as int)) == Some(v@),
            None => unescape_seq(s@.subrange(a as int, b as int)) is None,
        },
{
    let ghost whole = s@.subrange(a as int, b as int);
    let mut out: Vec<char> = Vec::new();
    let mut i: usize = a;
    while i < b
        invariant
            a <= i <= b <= s@.len(),
            whole == s@.subrange(a as int, b as int),
            unescape_seq(whole) == (match unescape_seq(s@.subrange(i as int, b as int)) {
                Some(t) => Some(out@ + t),
                None => None::<Seq<char>>,
            }),
        decreases b - i,
    {
        let ghost suf = s@.subrange(i as int, b as int);
        let c = s[i];
        proof {
            assert(suf[0] == s@[i as int]);
        }
        if c == '\\' {
            if i + 1 == b {
                proof {
                    assert(suf.len() == 1);
                }
                return None;
            }
            let code = s[i + 1];
            proof {
                assert(suf[1] == s@[i + 1 as int]);
                assert(suf.skip(2) =~= s@.subrange(i + 2 as int, b as int));
            }
            let decoded: char;
            if code == '\\' {
                decoded = '\\';
            } else if code == '"' {
                decoded = '"';
            } else if code == 'n' {
                decoded = '\n';
            } else if code == 'r' {
                decoded = '\r';
            } else if code == 't' {
                decoded = '\t';
            } else {
                proof {
                    assert(unescape_code(suf[1]) is None);
                }
                return None;
            }
            out.push(decoded);
            proof {
                assert(unescape_code(suf[1]) == Some(decoded));
                if unescape_seq(s@.subrange(i + 2 as int, b as int)) is Some {
                    let t = unescape_seq(s@.subrange(i + 2 as int, b as int))->Some_0;
                    assert(out@.take(out@.len() - 1) + (seq![decoded] + t) =~= out@ + t);
                }
            }
            i = i + 2;
        } else if c == '"' {
            return None;
        } else {
            out.push(c);
            proof {
                assert(suf.skip(1) =~= s@.subrange(i + 1 as int, b as int));
                if unescape_seq(s@.subrange(i + 1 as int, b as int)) is Some {
                    let t = unescape_seq(s@.subrange(i + 1 as int, b as int))->Some_0;
                    assert(out@.take(out@.len() - 1) + (seq![c] + t) =~= out@ + t);
                }
            }
            i = i + 1;
        }
    }
    proof {
        assert(s@.subrange(i as int, b as int).len() == 0);
        assert(out@ + Seq::<char>::empty() =~= out@);
    }
    Some(out)
}

/// Decodes the double-quoted scalar in `s[a..b]`.
fn unquote_range(s: &Vec<char>, a: usize, b: usize) -> (r: Option<String>)
    requires
        a <= b <= s@.len(),
    ensures
        match r {
            Some(v) => unquote(s@.subrange(a as int, b as int)) == Some(v@),
            None => unquote(s@.subrange(a as int, b as int)) is None,
        },
{
    let ghost whole = s@.subrange(a as int, b as int);
    if b - a < 2 {
        return None;
    }
    if s[a] != '"' || s[b - 1] != '"' {
        proof {
            assert(whole[0] == s@[a as int]);
            assert(whole[whole.len() - 1] == s@[b - 1 as int]);
        }
        return None;
    }
    proof {
        assert(whole[0] == s@[a as int]);
        assert(whole[whole.len() - 1] == s@[b - 1 as int]);
        assert(whole.subrange(1, whole.len() - 1) =~= s@.subrange(a + 1 as int, b - 1 as int));
    }
    match unescape_range(s, a + 1, b - 1) {
        Some(v) => Some(crate::text::string_of(&v)),
        None => None,
    }
}

/// The index where the run of spaces starting at `from` ends.
fn strip_from(line: &Vec<char>, from: usize) -> (k: usize)
    requires
        from <= line@.len(),
    ensures
        from <= k <= line@.len(),
        strip_indent(line@.skip(from as int)) == line@.skip(k as int),
{
    let mut k: usize = from;
    while k < line.len()
        invariant
            from <= k <= line@.len(),
            strip_indent(line@.skip(from as int)) == strip_indent(line@.skip(k as int)),
        decreases line@.len() - k,
    {
        if line[k] != ' ' {
            proof {
                assert(line@.skip(k as int)[0] == line@[k as int]);
            }
            return k;
        }
        proof {
            assert(line@.skip(k as int)[0] == line@[k as int]);
            assert(line@.skip(k as int).skip(1) =~= line@.skip(k + 1 as int));
        }
        k = k + 1;
    }
    proof {
        assert(line@.skip(k as int).len() == 0);
    }
    k
}

/// The scalar in `line[a..b]`, quoted or plain.
fn parse_value_exec(line: &Vec<char>, a: usize, b: usize) -> (r: Option<String>)
    requires
        a <= b <= line@.len(),
    ensures
        match r {
            Some(v) => parse_value(line@.subrange(a as int, b as int)) == Some(v@),
            None => parse_value(line@.subrange(a as int, b as int)) is None,
        },
{
    let ghost v = line@.subrange(a as int, b as int);
    if a < b && line[a] == '"' {
        proof {
            assert(v[0] == line@[a as int]);
        }
        unquote_range(line, a, b)
    } else {
        proof {
            if v.len() > 0 {
                assert(v[0] == line@[a as int]);
            }
        }
        let cs = crate::text::copy_range(line, a, b);
        Some(crate::text::string_of(&cs))
    }
}

/// Applies the field on the stripped portion `line[start..]` to the pair
/// being built.
fn apply_field_exec(p: &mut MatchPair, line: &Vec<char>, start: usize) -> (ok: bool)
    requires
        start <= line@.len(),
    ensures
        match apply_field(old(p)@, line@.skip(start as int)) {
            Some(q) => ok && final(p)@ == q,
            None => !ok,
        },
{
    let ghost content = line@.skip(start as int);
    let j = match crate::text::find_from(line, start, ':') {
        None => {
            return false;
        },
        Some(j) => j,
    };
    proof {
        assert(content.take(j - start) =~= line@.subrange(start as int, j as int));
    }
    let n = line.len();
    proof {
        assert(j < n);
    }
    let vstart: usize;
    if j + 1 == n {
        vstart = n;
        proof {
            assert(Seq::<char>::empty() =~= line@.subrange(
                line@.len() as int,
                line@.len() as int,
            ));
        }
    } else if line[j + 1] == ' ' {
        vstart = j + 2;
        proof {
            assert(content[j - start + 1] == line@[j + 1 as int]);
            assert(content.skip(j - start + 2) =~= line@.subrange(
                j + 2 as int,
                line@.len() as int,
            ));
        }
    } else {
        proof {
            assert(content[j - start + 1] == line@[j + 1 as int]);
        }
        return false;
    }
    let tkey = trigger_key_vec();
    if crate::text::range_eq(line, start, j, &tkey) {
        match parse_value_exec(line, vstart, line.len()) {
            Some(t) => {
                p.trigger = t;
                return true;
            },
            None => {
                return false;
            },
        }
    }
    let rkey = replace_key_vec();
    if crate::text::range_eq(line, start, j, &rkey) {
        match parse_value_exec(line, vstart, line.len()) {
            Some(r) => {
                p.replace = r;
                return true;
            },
            None => {
                return false;
            },
        }
    }
    true
}

/// The document `text` stands for; `Format` when the text does not match
/// the expected shape.
pub fn parse(text: &str) -> (r: Result<MatchDocument, EditError>)
    ensures
        match r {
            Ok(d) => parse_doc(text@) == Some(d@),
            Err(e) => parse_doc(text@) is None && e == EditError::Format,
        },
{
    let cs = crate::text::chars_of(text);
    let lines = split_into_lines(&cs);
    let ghost lv = line_views(lines@);
    if lines.len() == 0 {
        return Err(EditError::Format);
    }
    let n0 = lines[0].len();
    let ehl = empty_header_vec();
    let is_empty_header = crate::text::range_eq(&lines[0], 0, n0, &ehl);
    proof {
        assert(lines@[0]@.subrange(0, lines@[0]@.len() as int) =~= lines@[0]@);
        assert(lv[0] == lines@[0]@);
    }
    if is_empty_header {
        // The rest of the file must be blank.
        let mut i: usize = 1;
        proof {
            assert(lv.skip(1).skip(0) =~= lv.skip(1));
        }
        while i < lines.len()
            invariant
                1 <= i <= lines@.len(),
                lv == line_views(lines@),
                lv[0] == empty_header_line(),
                all_blank(lv.skip(1)) == all_blank(lv.skip(i as int)),
                parse_doc(text@) == (if all_blank(lv.skip(1)) {
                    Some(Seq::<PairModel>::empty())
                } else {
                    None::<Seq<PairModel>>
                }),
            decreases lines@.len() - i,
        {
            let k = strip_from(&lines[i], 0);
            proof {
                let rem = lv.skip(i as int);
                assert(rem.len() > 0);
                assert(rem[0] == lines@[i as int]@);
                assert(lines@[i as int]@.skip(0) =~= lines@[i as int]@);
                assert(rem.skip(1) =~= lv.skip(i + 1 as int));
            }
            if k < lines[i].len() {
                proof {
                    assert(strip_indent(lv.skip(i as int)[0]).len() > 0);
                }
                return Err(EditError::Format);
            }
            i = i + 1;
        }
        proof {
            assert(lv.skip(i as int).len() == 0);
        }
        return Ok(MatchDocument::new());
    }
    let hl = header_vec();
    if !crate::text::range_eq(&lines[0], 0, n0, &hl) {
        return Err(EditError::Format);
    }
    let ghost item_lines = lv.skip(1);
    let mut started = false;
    let mut cur = MatchPair::empty();
    let mut result: Vec<MatchPair> = Vec::new();
    let mut i: usize = 1;
    proof {
        assert(item_lines.skip(0) =~= item_lines);
    }
    while i < lines.len()
        invariant
            1 <= i <= lines@.len(),
            lv == line_views(lines@),
            item_lines == lv.skip(1),
            item_lines.len() == lines@.len() - 1,
            parse_doc(text@) == parse_items(item_lines),
            !started ==> result@.len() == 0 && parse_items(item_lines) == parse_items(
                item_lines.skip(i - 1 as int),
            ),
            started ==> parse_items(item_lines) == (match parse_items_acc(
                item_lines.skip(i - 1 as int),
                cur@,
            ) {
                Some(ps) => Some(pair_views(result@) + ps),
                None => None::<Seq<PairModel>>,
            }),
        decreases lines@.len() - i,
    {
        let ghost rem = item_lines.skip(i - 1 as int);
        proof {
            assert(rem.len() > 0);
            assert(rem[0] == lines@[i as int]@);
            assert(rem.skip(1) =~= item_lines.skip(i as int));
            assert(lines@[i as int]@.skip(0) =~= lines@[i as int]@);
        }
        let k = strip_from(&lines[i], 0);
        let llen = lines[i].len();
        let ghost t = strip_indent(rem[0]);
        proof {
            assert(t == lines@[i as int]@.skip(k as int));
        }
        if k == llen {
            // A blank line: both readers skip it.
            proof {
                assert(t.len() == 0);
            }
        } else {
            let is_dash = k + 1 < llen && lines[i][k] == '-' && lines[i][k + 1] == ' ';
            proof {
                assert(t.len() == llen - k);
                assert(t[0] == lines@[i as int]@[k as int]);
                if t.len() >= 2 {
                    assert(t[1] == lines@[i as int]@[k + 1 as int]);
                }
                if is_dash {
                    assert(t.take(2) =~= dash_prefix());
                    assert(starts_with(t, dash_prefix()));
                } else if starts_with(t, dash_prefix()) {
                    assert(t.take(2)[0] == t[0]);
                    assert(t.take(2)[1] == t[1]);
                    assert(dash_prefix()[0] == '-' && dash_prefix()[1] == ' ');
                    assert(false);
                }
            }
            if is_dash {
                let f = strip_from(&lines[i], k + 2);
                proof {
                    assert(t.skip(2) =~= lines@[i as int]@.skip(k + 2 as int));
                    assert(strip_indent(t.skip(2)) == lines@[i as int]@.skip(f as int));
                }
                let ghost prev = cur@;
                let had_block = started;
                if started {
                    result.push(cur);
                }
                cur = MatchPair::empty();
                if !apply_field_exec(&mut cur, &lines[i], f) {
                    return Err(EditError::Format);
                }
                started = true;
                proof {
                    if had_block {
                        assert(result@[result@.len() - 1]@ == prev);
                        if parse_items_acc(item_lines.skip(i as int), cur@) is Some {
                            let ps = parse_items_acc(item_lines.skip(i as int), cur@)->Some_0;
                            assert(pair_views(result@.take(result@.len() - 1)) + (seq![prev] + ps)
                                =~= pair_views(result@) + ps);
                        }
                    } else {
                        if parse_items_acc(item_lines.skip(i as int), cur@) is Some {
                            let ps = parse_items_acc(item_lines.skip(i as int), cur@)->Some_0;
                            assert(pair_views(result@) + ps =~= ps);
                        }
                    }
                }
            } else {
                if !started {
                    return Err(EditError::Format);
                }
                if !apply_field_exec(&mut cur, &lines[i], k) {
                    return Err(EditError::Format);
                }
            }
        }
        i = i + 1;
    }
    proof {
        assert(item_lines.skip(i - 1 as int).len() == 0);
    }
    if !started {
        return Ok(MatchDocument::new());
    }
    result.push(cur);
    proof {
        let prev = result@[result@.len() - 1]@;
        assert(pair_views(result@.take(result@.len() - 1)) + seq![prev] =~= pair_views(result@));
    }
    let doc = MatchDocument { matches: result };
    proof {
        assert(doc@ == pair_views(doc.matches@));
    }
    Ok(doc)
}

} // verus!
