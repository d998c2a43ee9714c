use crate::slot_utils::{IntentSlotsMapping, InternalSlot, InternalSlotView};
use crate::token::{Token, TokenView};
use vstd::prelude::*;
use vstd::string::{StrSliceExecFns, StringExecFns};

verus! {

/// The marker tag of a token that belongs to no slot.
pub const OUTSIDE: &'static str = "O";

/// Every scheme prefix is exactly this many characters long; the
/// encoder writes prefixes of this length and the decoder strips them
/// again.
pub const PREFIX_LENGTH: usize = 2;

/// The three per-token labeling conventions understood by the decoder
/// and the encoder.
#[derive(Copy, Clone, Debug, PartialEq, Eq, Structural)]
pub enum TaggingScheme {
    IO,
    BIO,
    BILOU,
}

/// The two ways this layer can fail: an unknown scheme code at
/// construction, and a decoded slot name that the supplied mapping
/// does not resolve to an entity type.
#[derive(Debug, PartialEq)]
pub enum TaggingError {
    InvalidSchemeIdentifier(u8),
    MissingSlotEntityMapping(String),
}

impl TaggingScheme {
    /// Builds a tagging scheme from its small integer code; every code
    /// other than 0, 1 and 2 is rejected.
    pub fn from_u8(i: u8) -> (r: Result<TaggingScheme, TaggingError>)
        ensures
            i == 0 ==> r == Ok::<TaggingScheme, TaggingError>(TaggingScheme::IO),
            i == 1 ==> r == Ok::<TaggingScheme, TaggingError>(TaggingScheme::BIO),
            i == 2 ==> r == Ok::<TaggingScheme, TaggingError>(TaggingScheme::BILOU),
            i > 2 ==> r == Err::<TaggingScheme, TaggingError>(
                TaggingError::InvalidSchemeIdentifier(i),
            ),
    {
        match i {
            0 => Ok(TaggingScheme::IO),
            1 => Ok(TaggingScheme::BIO),
            2 => Ok(TaggingScheme::BILOU),
            _ => Err(TaggingError::InvalidSchemeIdentifier(i)),
        }
    }
}

/// The one-character tag that marks a token as outside every slot.
pub open spec fn spec_is_outside(tag: Seq<char>) -> bool {
    tag.len() == 1 && tag[0] == 'O'
}

/// Does the tag begin with the two-character prefix written `c` then
/// `-`?
pub open spec fn spec_has_prefix(tag: Seq<char>, c: char) -> bool {
    tag.len() >= PREFIX_LENGTH && tag[0] == c && tag[1] == '-'
}

/// The slot name carried by a tag: everything after the two-character
/// scheme prefix, and empty when the tag is shorter than a prefix.
pub open spec fn spec_slot_name_of(tag: Seq<char>) -> Seq<char> {
    if tag.len() >= PREFIX_LENGTH {
        tag.subrange(PREFIX_LENGTH as int, tag.len() as int)
    } else {
        Seq::empty()
    }
}

fn is_outside_tag(tag: &str) -> (r: bool)
    ensures
        r == spec_is_outside(tag@),
{
    tag.unicode_len() == 1 && tag.get_char(0) == 'O'
}

fn tag_starts_with(tag: &str, c: char) -> (r: bool)
    ensures
        r == spec_has_prefix(tag@, c),
{
    tag.unicode_len() >= PREFIX_LENGTH && tag.get_char(0) == c && tag.get_char(1) == '-'
}

/// Under IO, position `i` starts a slot iff it is tagged non-outside
/// and is either the first position or preceded by an outside tag.
pub open spec fn spec_is_start_of_io_slot(tags: Seq<Seq<char>>, i: int) -> bool
    recommends
        0 <= i < tags.len(),
{
    if i == 0 {
        !spec_is_outside(tags[i])
    } else if spec_is_outside(tags[i]) {
        false
    } else {
        spec_is_outside(tags[i - 1])
    }
}

/// Under IO, position `i` ends a slot iff it is tagged non-outside and
/// is either the last position or followed by an outside tag.
pub open spec fn spec_is_end_of_io_slot(tags: Seq<Seq<char>>, i: int) -> bool
    recommends
        0 <= i < tags.len(),
{
    if i + 1 == tags.len() {
        !spec_is_outside(tags[i])
    } else if spec_is_outside(tags[i]) {
        false
    } else {
        spec_is_outside(tags[i + 1])
    }
}

/// Under BIO, position `i` starts a slot iff it is tagged non-outside
/// and is the first position, carries the Beginning prefix, or — as the
/// fallback on malformed sequences — is preceded by an outside tag.
pub open spec fn spec_is_start_of_bio_slot(tags: Seq<Seq<char>>, i: int) -> bool
    recommends
        0 <= i < tags.len(),
{
    if i == 0 {
        !spec_is_outside(tags[i])
    } else if spec_is_outside(tags[i]) {
        false
    } else if spec_has_prefix(tags[i], 'B') {
        true
    } else {
        spec_is_outside(tags[i - 1])
    }
}

/// Under BIO, position `i` ends a slot iff it is tagged non-outside and
/// is either the last position or followed by a tag without the Inside
/// prefix (an outside tag or the beginning of the next slot).
pub open spec fn spec_is_end_of_bio_slot(tags: Seq<Seq<char>>, i: int) -> bool
    recommends
        0 <= i < tags.len(),
{
    if i + 1 == tags.len() {
        !spec_is_outside(tags[i])
    } else {
        !spec_is_outside(tags[i]) && !spec_has_prefix(tags[i + 1], 'I')
    }
}

/// Under BILOU, position `i` starts a slot iff it is tagged non-outside
/// and is the first position, carries the Beginning or Unit prefix,
/// follows a Unit or Last prefix, or — as the fallback on malformed
/// sequences — is preceded by an outside tag.
pub open spec fn spec_is_start_of_bilou_slot(tags: Seq<Seq<char>>, i: int) -> bool
    recommends
        0 <= i < tags.len(),
{
    if i == 0 {
        !spec_is_outside(tags[i])
    } else if spec_is_outside(tags[i]) {
        false
    } else if spec_has_prefix(tags[i], 'B') || spec_has_prefix(tags[i], 'U') || spec_has_prefix(
        tags[i - 1],
        'U',
    ) || spec_has_prefix(tags[i - 1], 'L') {
        true
    } else {
        spec_is_outside(tags[i - 1])
    }
}

/// Under BILOU, position `i` ends a slot iff it is tagged non-outside
/// and is the last position, is followed by an outside tag, carries the
/// Last or Unit prefix, or is followed by a Beginning or Unit prefix.
pub open spec fn spec_is_end_of_bilou_slot(tags: Seq<Seq<char>>, i: int) -> bool
    recommends
        0 <= i < tags.len(),
{
    if i + 1 == tags.len() {
        !spec_is_outside(tags[i])
    } else if spec_is_outside(tags[i]) {
        false
    } else {
        spec_is_outside(tags[i + 1]) || spec_has_prefix(tags[i], 'L') || spec_has_prefix(
            tags[i],
            'U',
        ) || spec_has_prefix(tags[i + 1], 'B') || spec_has_prefix(tags[i + 1], 'U')
    }
}

pub fn is_start_of_io_slot(tags: &[String], i: usize) -> (r: bool)
    requires
        i < tags@.len(),
    ensures
        r == spec_is_start_of_io_slot(tags.deep_view(), i as int),
{
    if i == 0 {
        !is_outside_tag(tags[i].as_str())
    } else if is_outside_tag(tags[i].as_str()) {
        false
    } else {
        is_outside_tag(tags[i - 1].as_str())
    }
}

pub fn is_end_of_io_slot(tags: &[String], i: usize) -> (r: bool)
    requires
        i < tags@.len(),
    ensures
        r == spec_is_end_of_io_slot(tags.deep_view(), i as int),
{
    let n = tags.len();
    if i + 1 == n {
        !is_outside_tag(tags[i].as_str())
    } else if is_outside_tag(tags[i].as_str()) {
        false
    } else {
        is_outside_tag(tags[i + 1].as_str())
    }
}

pub fn is_start_of_bio_slot(tags: &[String], i: usize) -> (r: bool)
    requires
        i < tags@.len(),
    ensures
        r == spec_is_start_of_bio_slot(tags.deep_view(), i as int),
{
    if i == 0 {
        !is_outside_tag(tags[i].as_str())
    } else if is_outside_tag(tags[i].as_str()) {
        false
    } else if tag_starts_with(tags[i].as_str(), 'B') {
        true
    } else {
        is_outside_tag(tags[i - 1].as_str())
    }
}

pub fn is_end_of_bio_slot(tags: &[String], i: usize) -> (r: bool)
    requires
        i < tags@.len(),
    ensures
        r == spec_is_end_of_bio_slot(tags.deep_view(), i as int),
{
    let n = tags.len();
    if i + 1 == n {
        !is_outside_tag(tags[i].as_str())
    } else {
        !is_outside_tag(tags[i].as_str()) && !tag_starts_with(tags[i + 1].as_str(), 'I')
    }
}

pub fn is_start_of_bilou_slot(tags: &[String], i: usize) -> (r: bool)
    requires
        i < tags@.len(),
    ensures
        r == spec_is_start_of_bilou_slot(tags.deep_view(), i as int),
{
    if i == 0 {
        !is_outside_tag(tags[i].as_str())
    } else if is_outside_tag(tags[i].as_str()) {
        false
    } else if tag_starts_with(tags[i].as_str(), 'B') || tag_starts_with(tags[i].as_str(), 'U')
        || tag_starts_with(tags[i - 1].as_str(), 'U') || tag_starts_with(
        tags[i - 1].as_str(),
        'L',
    ) {
        true
    } else {
        is_outside_tag(tags[i - 1].as_str())
    }
}

pub fn is_end_of_bilou_slot(tags: &[String], i: usize) -> (r: bool)
    requires
        i < tags@.len(),
    ensures
        r == spec_is_end_of_bilou_slot(tags.deep_view(), i as int),
{
    let n = tags.len();
    if i + 1 == n {
        !is_outside_tag(tags[i].as_str())
    } else if is_outside_tag(tags[i].as_str()) {
        false
    } else {
        is_outside_tag(tags[i + 1].as_str()) || tag_starts_with(tags[i].as_str(), 'L')
            || tag_starts_with(tags[i].as_str(), 'U') || tag_starts_with(
            tags[i + 1].as_str(),
            'B',
        ) || tag_starts_with(tags[i + 1].as_str(), 'U')
    }
}

/// The start predicate of the active scheme.
pub open spec fn spec_is_start_of_slot(
    scheme: TaggingScheme,
    tags: Seq<Seq<char>>,
    i: int,
) -> bool {
    match scheme {
        TaggingScheme::IO => spec_is_start_of_io_slot(tags, i),
        TaggingScheme::BIO => spec_is_start_of_bio_slot(tags, i),
        TaggingScheme::BILOU => spec_is_start_of_bilou_slot(tags, i),
    }
}

/// The end predicate of the active scheme.
pub open spec fn spec_is_end_of_slot(scheme: TaggingScheme, tags: Seq<Seq<char>>, i: int) -> bool {
    match scheme {
        TaggingScheme::IO => spec_is_end_of_io_slot(tags, i),
        TaggingScheme::BIO => spec_is_end_of_bio_slot(tags, i),
        TaggingScheme::BILOU => spec_is_end_of_bilou_slot(tags, i),
    }
}

fn is_start_of_slot(scheme: TaggingScheme, tags: &[String], i: usize) -> (r: bool)
    requires
        i < tags@.len(),
    ensures
        r == spec_is_start_of_slot(scheme, tags.deep_view(), i as int),
{
    match scheme {
        TaggingScheme::IO => is_start_of_io_slot(tags, i),
        TaggingScheme::BIO => is_start_of_bio_slot(tags, i),
        TaggingScheme::BILOU => is_start_of_bilou_slot(tags, i),
    }
}

fn is_end_of_slot(scheme: TaggingScheme, tags: &[String], i: usize) -> (r: bool)
    requires
        i < tags@.len(),
    ensures
        r == spec_is_end_of_slot(scheme, tags.deep_view(), i as int),
{
    match scheme {
        TaggingScheme::IO => is_end_of_io_slot(tags, i),
        TaggingScheme::BIO => is_end_of_bio_slot(tags, i),
        TaggingScheme::BILOU => is_end_of_bilou_slot(tags, i),
    }
}

/// Strips the two-character scheme prefix from a tag, leaving the slot
/// name; a tag shorter than a prefix yields the empty string.
pub fn tag_name_to_slot_name(tag: String) -> (r: String)
    ensures
        r@ == spec_slot_name_of(tag@),
{
    let s = tag.as_str();
    let n = s.unicode_len();
    if n >= PREFIX_LENGTH {
        s.substring_char(PREFIX_LENGTH, n).to_owned()
    } else {
        String::new()
    }
}

/// Intermediate result of decode, one per contiguous detected slot:
/// the slot name stripped of its prefix, and the byte and character
/// ranges the slot spans in the source text.
#[derive(Debug, PartialEq)]
pub struct SlotRange {
    pub slot_name: String,
    pub range: core::ops::Range<usize>,
    pub char_range: core::ops::Range<usize>,
}

/// The mathematical model of a `SlotRange`.
pub ghost struct SlotRangeView {
    pub slot_name: Seq<char>,
    pub byte_start: int,
    pub byte_end: int,
    pub char_start: int,
    pub char_end: int,
}

impl View for SlotRange {
    type V = SlotRangeView;

    open spec fn view(&self) -> SlotRangeView {
        SlotRangeView {
            slot_name: self.slot_name@,
            byte_start: self.range.start as int,
            byte_end: self.range.end as int,
            char_start: self.char_range.start as int,
            char_end: self.char_range.end as int,
        }
    }
}

impl DeepView for SlotRange {
    type V = SlotRangeView;

    open spec fn deep_view(&self) -> SlotRangeView {
        self.view()
    }
}

/// The slot emitted when position `i` ends the slot that opened at
/// position `cur`: it spans from token `cur`'s span start to token
/// `i`'s span end and is named by the tag at `i` with its prefix
/// stripped.
pub open spec fn spec_emitted_slot(
    tags: Seq<Seq<char>>,
    tokens: Seq<crate::token::TokenView>,
    cur: int,
    i: int,
) -> SlotRangeView
    recommends
        0 <= cur < tokens.len(),
        0 <= i < tokens.len(),
        tags.len() == tokens.len(),
{
    SlotRangeView {
        slot_name: spec_slot_name_of(tags[i]),
        byte_start: tokens[cur].byte_start,
        byte_end: tokens[i].byte_end,
        char_start: tokens[cur].char_start,
        char_end: tokens[i].char_end,
    }
}

/// The decode state after the first `n` positions have been examined:
/// the slots emitted so far, and the start index of the slot currently
/// open. A start trigger moves that index to the current position; an
/// end trigger emits a slot and also resets the index to the current
/// position, so that two slots with no outside gap between them still
/// come out separate.
pub open spec fn spec_decode_state(
    scheme: TaggingScheme,
    tags: Seq<Seq<char>>,
    tokens: Seq<crate::token::TokenView>,
    n: int,
) -> (Seq<SlotRangeView>, int)
    recommends
        n <= tags.len(),
        tags.len() == tokens.len(),
    decreases n,
{
    if n <= 0 {
        (Seq::empty(), 0)
    } else {
        let prev = spec_decode_state(scheme, tags, tokens, n - 1);
        let i = n - 1;
        let cur = if spec_is_start_of_slot(scheme, tags, i) {
            i
        } else {
            prev.1
        };
        if spec_is_end_of_slot(scheme, tags, i) {
            (prev.0.push(spec_emitted_slot(tags, tokens, cur, i)), i)
        } else {
            (prev.0, cur)
        }
    }
}

/// The slot ranges that decoding a whole tag sequence yields.
pub open spec fn spec_tags_to_slot_ranges(
    scheme: TaggingScheme,
    tags: Seq<Seq<char>>,
    tokens: Seq<crate::token::TokenView>,
) -> Seq<SlotRangeView> {
    spec_decode_state(scheme, tags, tokens, tags.len() as int).0
}

/// Walks the tag sequence in index order and emits one `SlotRange` per
/// contiguous detected slot, using the start and end predicates of the
/// active scheme. Malformed tag sequences never fail: the predicates
/// are total and the walk degrades gracefully.
pub fn tags_to_slot_ranges(
    tokens: &[crate::token::Token],
    tags: &[String],
    tagging_scheme: TaggingScheme,
) -> (slots: Vec<SlotRange>)
    requires
        tags@.len() == tokens@.len(),
    ensures
        slots.deep_view() == spec_tags_to_slot_ranges(
            tagging_scheme,
            tags.deep_view(),
            tokens.deep_view(),
        ),
{
    let mut slots: Vec<SlotRange> = Vec::new();
    let mut current_slot_start: usize = 0;
    let n = tags.len();
    let mut i: usize = 0;
    while i < n
        invariant
            n == tags@.len(),
            tags@.len() == tokens@.len(),
            i <= n,
            current_slot_start <= i,
            i > 0 ==> current_slot_start < n,
            slots.deep_view() == spec_decode_state(
                tagging_scheme,
                tags.deep_view(),
                tokens.deep_view(),
                i as int,
            ).0,
            current_slot_start as int == spec_decode_state(
                tagging_scheme,
                tags.deep_view(),
                tokens.deep_view(),
                i as int,
            ).1,
        decreases n - i,
    {
        let ghost prev_slots = slots.deep_view();
        if is_start_of_slot(tagging_scheme, tags, i) {
            current_slot_start = i;
        }
        if is_end_of_slot(tagging_scheme, tags, i) {
            let slot = SlotRange {
                range: tokens[current_slot_start].range.start..tokens[i].range.end,
                char_range: tokens[current_slot_start].char_range.start..tokens[
                    i
                ].char_range.end,
                slot_name: tag_name_to_slot_name(tags[i].clone()),
            };
            proof {
                assert(slot@ == spec_emitted_slot(
                    tags.deep_view(),
                    tokens.deep_view(),
                    current_slot_start as int,
                    i as int,
                ));
            }
            slots.push(slot);
            proof {
                assert(slots.deep_view() =~= prev_slots.push(
                    spec_emitted_slot(
                        tags.deep_view(),
                        tokens.deep_view(),
                        current_slot_start as int,
                        i as int,
                    ),
                ));
            }
            current_slot_start = i;
        }
        i = i + 1;
    }
    slots
}

/// Character-by-character string equality, equivalent to equality of
/// the two character sequences.
pub(crate) fn str_eq(a: &str, b: &str) -> (r: bool)
    ensures
        r == (a@ == b@),
{
    let na = a.unicode_len();
    let nb = b.unicode_len();
    if na != nb {
        return false;
    }
    let mut i: usize = 0;
    while i < na
        invariant
            na == a@.len(),
            nb == b@.len(),
            na == nb,
            i <= na,
            forall|k: int| 0 <= k < i ==> a@[k] == b@[k],
        decreases na - i,
    {
        if a.get_char(i) != b.get_char(i) {
            return false;
        }
        i = i + 1;
    }
    proof {
        assert(a@ =~= b@);
    }
    true
}

/// The label that stands in for a set of candidate labels: the outside
/// marker as soon as any candidate is outside, else the first
/// candidate.
pub fn get_substitution_label<'a>(labels: &[&'a str]) -> (r: &'a str)
    requires
        labels@.len() > 0,
    ensures
        (exists|k: int| 0 <= k < labels@.len() && spec_is_outside(labels@[k]@)) ==> spec_is_outside(
            r@,
        ),
        !(exists|k: int| 0 <= k < labels@.len() && spec_is_outside(labels@[k]@)) ==> r@ == labels@[
            0
        ]@,
{
    let n = labels.len();
    let mut i: usize = 0;
    while i < n
        invariant
            n == labels@.len(),
            i <= n,
            forall|k: int| 0 <= k < i ==> !spec_is_outside(labels@[k]@),
        decreases n - i,
    {
        if is_outside_tag(labels[i]) {
            proof {
                reveal_strlit("O");
                assert(spec_is_outside(OUTSIDE@));
            }
            return OUTSIDE;
        }
        i = i + 1;
    }
    labels[0]
}

/// The prefix the encoder writes for token `index` of an annotated
/// span whose sorted token indices are `indexes`: IO always uses
/// Inside; BIO uses Beginning at the span's first index and Inside
/// elsewhere; BILOU uses Unit for a one-token span, else Beginning at
/// the first index, Last at the final index and Inside between them.
pub open spec fn spec_scheme_prefix(
    index: usize,
    indexes: Seq<usize>,
    scheme: TaggingScheme,
) -> Seq<char>
    recommends
        indexes.len() > 0,
{
    match scheme {
        TaggingScheme::IO => seq!['I', '-'],
        TaggingScheme::BIO => if index == indexes[0] {
            seq!['B', '-']
        } else {
            seq!['I', '-']
        },
        TaggingScheme::BILOU => if indexes.len() == 1 {
            seq!['U', '-']
        } else if index == indexes[0] {
            seq!['B', '-']
        } else if index == indexes[indexes.len() - 1] {
            seq!['L', '-']
        } else {
            seq!['I', '-']
        },
    }
}

/// Computes the tag prefix for one token of an annotated span; callers
/// build the full training tag by appending the slot name.
pub fn get_scheme_prefix(index: usize, indexes: &[usize], tagging_scheme: TaggingScheme) -> (r:
    &'static str)
    requires
        indexes@.len() > 0,
    ensures
        r@ == spec_scheme_prefix(index, indexes@, tagging_scheme),
{
    proof {
        reveal_strlit("B-");
        reveal_strlit("I-");
        reveal_strlit("L-");
        reveal_strlit("U-");
        assert("B-"@ =~= seq!['B', '-']);
        assert("I-"@ =~= seq!['I', '-']);
        assert("L-"@ =~= seq!['L', '-']);
        assert("U-"@ =~= seq!['U', '-']);
    }
    match tagging_scheme {
        TaggingScheme::IO => "I-",
        TaggingScheme::BIO => {
            if index == indexes[0] {
                "B-"
            } else {
                "I-"
            }
        },
        TaggingScheme::BILOU => {
            if indexes.len() == 1 {
                "U-"
            } else if index == indexes[0] {
                "B-"
            } else if index == indexes[indexes.len() - 1] {
                "L-"
            } else {
                "I-"
            }
        },
    }
}

/// Token spans, read as character ranges, lie inside the text and
/// advance with the token order.
pub open spec fn spec_tokens_in_text(tokens: Seq<TokenView>, text: Seq<char>) -> bool {
    &&& forall|k: int|
        #![trigger tokens[k]]
        0 <= k < tokens.len() ==> 0 <= tokens[k].char_start <= tokens[k].char_end <= text.len()
    &&& forall|p: int, q: int|
        #![trigger tokens[p], tokens[q]]
        0 <= p < q < tokens.len() ==> tokens[p].char_start <= tokens[q].char_start
            && tokens[p].char_end <= tokens[q].char_end
}

/// The slot produced for a decoded range once its name resolved: the
/// text sliced by the range's character span, the entity type the
/// mapping binds the slot name to, and the name and span themselves.
pub open spec fn spec_resolved_slot(
    text: Seq<char>,
    mapping: Map<Seq<char>, Seq<char>>,
    s: SlotRangeView,
) -> InternalSlotView
    recommends
        0 <= s.char_start <= s.char_end <= text.len(),
        mapping.contains_key(s.slot_name),
{
    InternalSlotView {
        value: text.subrange(s.char_start, s.char_end),
        entity: mapping[s.slot_name],
        char_start: s.char_start,
        char_end: s.char_end,
        slot_name: s.slot_name,
    }
}

/// Index of the first decoded range whose slot name the mapping does
/// not know; the number of ranges when it knows them all.
pub open spec fn spec_first_unmapped(
    ranges: Seq<SlotRangeView>,
    mapping: Map<Seq<char>, Seq<char>>,
) -> int
    decreases ranges.len(),
{
    if ranges.len() == 0 {
        0
    } else if !mapping.contains_key(ranges.first().slot_name) {
        0
    } else {
        1 + spec_first_unmapped(ranges.drop_first(), mapping)
    }
}

proof fn lemma_first_unmapped_at(
    ranges: Seq<SlotRangeView>,
    mapping: Map<Seq<char>, Seq<char>>,
    i: int,
)
    requires
        0 <= i <= ranges.len(),
        forall|k: int| 0 <= k < i ==> mapping.contains_key(#[trigger] ranges[k].slot_name),
        i < ranges.len() ==> !mapping.contains_key(ranges[i].slot_name),
    ensures
        spec_first_unmapped(ranges, mapping) == i,
    decreases ranges.len(),
{
    if ranges.len() == 0 {
    } else if i == 0 {
    } else {
        let rest = ranges.drop_first();
        assert forall|k: int| 0 <= k < i - 1 implies mapping.contains_key(
            #[trigger] rest[k].slot_name,
        ) by {
            assert(rest[k] == ranges[k + 1]);
        }
        if i - 1 < rest.len() {
            assert(rest[i - 1] == ranges[i]);
        }
        lemma_first_unmapped_at(rest, mapping, i - 1);
    }
}

/// Every slot the decoder emits spans from some token `a`'s span start
/// to some later (or equal) token `b`'s span end, and the tracked start
/// index stays inside the examined prefix.
proof fn lemma_decode_state_bounds(
    scheme: TaggingScheme,
    tags: Seq<Seq<char>>,
    tokens: Seq<TokenView>,
    n: int,
)
    requires
        0 <= n <= tags.len(),
        tags.len() == tokens.len(),
    ensures
        0 <= spec_decode_state(scheme, tags, tokens, n).1,
        spec_decode_state(scheme, tags, tokens, n).1 <= (if n <= 1 {
            0
        } else {
            n - 1
        }),
        forall|j: int|
            0 <= j < spec_decode_state(scheme, tags, tokens, n).0.len()
                ==> exists|a: int, b: int|
                0 <= a <= b < n && #[trigger] spec_decode_state(scheme, tags, tokens, n).0[j]
                    == spec_emitted_slot(tags, tokens, a, b),
    decreases n,
{
    if n > 0 {
        lemma_decode_state_bounds(scheme, tags, tokens, n - 1);
        let prev = spec_decode_state(scheme, tags, tokens, n - 1);
        let i = n - 1;
        let cur = if spec_is_start_of_slot(scheme, tags, i) {
            i
        } else {
            prev.1
        };
        let st = spec_decode_state(scheme, tags, tokens, n);
        if spec_is_end_of_slot(scheme, tags, i) {
            assert forall|j: int| 0 <= j < st.0.len() implies exists|a: int, b: int|
                0 <= a <= b < n && #[trigger] st.0[j] == spec_emitted_slot(tags, tokens, a, b) by {
                if j < st.0.len() - 1 {
                    let (a, b) = choose|a: int, b: int|
                        0 <= a <= b < n - 1 && prev.0[j] == spec_emitted_slot(tags, tokens, a, b);
                    assert(st.0[j] == spec_emitted_slot(tags, tokens, a, b));
                } else {
                    assert(st.0[j] == spec_emitted_slot(tags, tokens, cur, i));
                }
            }
        } else {
            assert forall|j: int| 0 <= j < st.0.len() implies exists|a: int, b: int|
                0 <= a <= b < n && #[trigger] st.0[j] == spec_emitted_slot(tags, tokens, a, b) by {
                let (a, b) = choose|a: int, b: int|
                    0 <= a <= b < n - 1 && prev.0[j] == spec_emitted_slot(tags, tokens, a, b);
                assert(st.0[j] == spec_emitted_slot(tags, tokens, a, b));
            }
        }
    }
}

/// Decodes a tag sequence and resolves each detected slot: the slot
/// value is the source text sliced by the slot's character range, and
/// the entity type comes from the supplied mapping. The only failure
/// mode is a decoded slot name that the mapping does not know; the
/// boundary walk itself tolerates malformed tag sequences.
pub fn tags_to_slots(
    text: &str,
    tokens: &[Token],
    tags: &[String],
    tagging_scheme: TaggingScheme,
    intent_slots_mapping: &IntentSlotsMapping,
) -> (r: Result<Vec<InternalSlot>, TaggingError>)
    requires
        tags@.len() == tokens@.len(),
        spec_tokens_in_text(tokens.deep_view(), text@),
    ensures
        ({
            let ranges = spec_tags_to_slot_ranges(
                tagging_scheme,
                tags.deep_view(),
                tokens.deep_view(),
            );
            let f = spec_first_unmapped(ranges, intent_slots_mapping@);
            match r {
                Ok(slots) => f == ranges.len() && slots.deep_view() == Seq::new(
                    ranges.len(),
                    |j: int| spec_resolved_slot(text@, intent_slots_mapping@, ranges[j]),
                ),
                Err(e) => f < ranges.len() && (e matches TaggingError::MissingSlotEntityMapping(
                    name,
                ) && name@ == ranges[f].slot_name),
            }
        }),
{
    let ghost gtags = tags.deep_view();
    let ghost gtokens = tokens.deep_view();
    proof {
        lemma_decode_state_bounds(tagging_scheme, gtags, gtokens, gtags.len() as int);
    }
    let ranges = tags_to_slot_ranges(tokens, tags, tagging_scheme);
    let ghost rv = ranges.deep_view();
    proof {
        let st = spec_decode_state(tagging_scheme, gtags, gtokens, gtags.len() as int);
        assert(rv == st.0);
        assert forall|j: int| #![trigger rv[j]] 0 <= j < rv.len() implies 0 <= rv[j].char_start
            && rv[j].char_start <= rv[j].char_end && rv[j].char_end <= text@.len() by {
            assert(0 <= j < st.0.len());
            let (a, b) = choose|a: int, b: int|
                0 <= a <= b < gtags.len() as int && st.0[j] == spec_emitted_slot(
                    gtags,
                    gtokens,
                    a,
                    b,
                );
            assert(rv[j].char_start == gtokens[a].char_start);
            assert(rv[j].char_end == gtokens[b].char_end);
            if a < b {
                assert(gtokens[a].char_start <= gtokens[b].char_start);
            }
        }
    }
    let mut slots: Vec<InternalSlot> = Vec::new();
    let n = ranges.len();
    let mut i: usize = 0;
    while i < n
        invariant
            n == ranges@.len(),
            gtags == tags.deep_view(),
            gtokens == tokens.deep_view(),
            rv == ranges.deep_view(),
            rv == spec_tags_to_slot_ranges(tagging_scheme, gtags, gtokens),
            gtags.len() == gtokens.len(),
            spec_tokens_in_text(gtokens, text@),
            forall|j: int|
                #![trigger rv[j]]
                0 <= j < rv.len() ==> 0 <= rv[j].char_start && rv[j].char_start <= rv[j].char_end
                    && rv[j].char_end <= text@.len(),
            i <= n,
            forall|k: int|
                0 <= k < i ==> intent_slots_mapping@.contains_key(#[trigger] rv[k].slot_name),
            slots.deep_view().len() == i as int,
            forall|j: int|
                0 <= j < i ==> #[trigger] slots.deep_view()[j] == spec_resolved_slot(
                    text@,
                    intent_slots_mapping@,
                    rv[j],
                ),
        decreases n - i,
    {
        let ghost prev_slots = slots.deep_view();
        let sr = &ranges[i];
        proof {
            assert(sr@ == rv[i as int]);
            assert(0 <= sr@.char_start <= sr@.char_end <= text@.len());
        }
        let value = text.substring_char(sr.char_range.start, sr.char_range.end).to_owned();
        match intent_slots_mapping.get(sr.slot_name.as_str()) {
            Some(entity) => {
                let slot = InternalSlot {
                    value,
                    entity: entity.clone(),
                    char_range: sr.char_range.start..sr.char_range.end,
                    slot_name: sr.slot_name.clone(),
                };
                slots.push(slot);
                proof {
                    assert(slots.deep_view() =~= prev_slots.push(
                        spec_resolved_slot(text@, intent_slots_mapping@, rv[i as int]),
                    ));
                }
            },
            None => {
                proof {
                    assert(sr@.slot_name == rv[i as int].slot_name);
                    assert(!intent_slots_mapping@.contains_key(rv[i as int].slot_name));
                    lemma_first_unmapped_at(rv, intent_slots_mapping@, i as int);
                    assert(spec_first_unmapped(rv, intent_slots_mapping@) == i as int);
                }
                return Err(TaggingError::MissingSlotEntityMapping(sr.slot_name.clone()));
            },
        }
        i = i + 1;
    }
    proof {
        lemma_first_unmapped_at(rv, intent_slots_mapping@, n as int);
        assert(slots.deep_view() =~= Seq::new(
            rv.len(),
            |j: int| spec_resolved_slot(text@, intent_slots_mapping@, rv[j]),
        ));
    }
    Ok(slots)
}

proof fn lemma_decode_state_all_outside(
    scheme: TaggingScheme,
    tags: Seq<Seq<char>>,
    tokens: Seq<TokenView>,
    n: int,
)
    requires
        0 <= n <= tags.len(),
        tags.len() == tokens.len(),
        forall|k: int| 0 <= k < tags.len() ==> spec_is_outside(#[trigger] tags[k]),
    ensures
        spec_decode_state(scheme, tags, tokens, n).0 == Seq::<SlotRangeView>::empty(),
        spec_decode_state(scheme, tags, tokens, n).1 == 0,
    decreases n,
{
    if n > 0 {
        lemma_decode_state_all_outside(scheme, tags, tokens, n - 1);
        assert(spec_is_outside(tags[n - 1]));
        assert(spec_decode_state(scheme, tags, tokens, n).0 =~= Seq::<SlotRangeView>::empty());
    }
}

/// Law: a tag sequence in which every tag is the outside marker — the
/// empty sequence included — decodes to no slots, under every scheme.
pub proof fn lemma_outside_tags_decode_to_no_slots(
    scheme: TaggingScheme,
    tags: Seq<Seq<char>>,
    tokens: Seq<TokenView>,
)
    requires
        tags.len() == tokens.len(),
        forall|k: int| 0 <= k < tags.len() ==> spec_is_outside(#[trigger] tags[k]),
    ensures
        spec_tags_to_slot_ranges(scheme, tags, tokens) == Seq::<SlotRangeView>::empty(),
{
    lemma_decode_state_all_outside(scheme, tags, tokens, tags.len() as int);
}

/// Law: decoding is a pure function of its inputs — decoding the same
/// tag sequence over the same tokens twice yields identical slot
/// lists.
pub proof fn lemma_decode_is_deterministic(
    scheme: TaggingScheme,
    tags: Seq<Seq<char>>,
    tokens: Seq<TokenView>,
    first: Seq<SlotRangeView>,
    second: Seq<SlotRangeView>,
)
    requires
        first == spec_tags_to_slot_ranges(scheme, tags, tokens),
        second == spec_tags_to_slot_ranges(scheme, tags, tokens),
    ensures
        first == second,
{
}

proof fn lemma_roundtrip_state(
    scheme: TaggingScheme,
    tags: Seq<Seq<char>>,
    tokens: Seq<TokenView>,
    k: int,
)
    requires
        tags.len() == tokens.len(),
        tags.len() >= 1,
        0 <= k <= tags.len() - 1,
        forall|j: int|
            0 <= j < tags.len() ==> #[trigger] spec_is_start_of_slot(scheme, tags, j) == (j == 0),
        forall|j: int|
            0 <= j < tags.len() ==> #[trigger] spec_is_end_of_slot(scheme, tags, j) == (j
                == tags.len() - 1),
    ensures
        spec_decode_state(scheme, tags, tokens, k).0 == Seq::<SlotRangeView>::empty(),
        spec_decode_state(scheme, tags, tokens, k).1 == 0,
    decreases k,
{
    if k > 0 {
        lemma_roundtrip_state(scheme, tags, tokens, k - 1);
        assert(spec_decode_state(scheme, tags, tokens, k).0 =~= Seq::<SlotRangeView>::empty());
    }
}

/// Law: encoding an annotated span and decoding it back recovers the
/// span. Take one slot over tokens whose strictly increasing indices
/// are `indexes`, and tag the span's tokens — each with the prefix the
/// encoder assigns it, followed by the slot name. Decoding that tag
/// subsequence under the same scheme yields exactly one slot range: it
/// spans from the first token's span start to the last token's span
/// end and carries the slot name.
pub proof fn lemma_encode_decode_roundtrip(
    scheme: TaggingScheme,
    tags: Seq<Seq<char>>,
    tokens: Seq<TokenView>,
    indexes: Seq<usize>,
    slot_name: Seq<char>,
)
    requires
        tokens.len() == tags.len(),
        tags.len() == indexes.len(),
        indexes.len() >= 1,
        forall|p: int, q: int|
            0 <= p < q < indexes.len() ==> #[trigger] indexes[p] < #[trigger] indexes[q],
        forall|k: int|
            0 <= k < tags.len() ==> #[trigger] tags[k] == spec_scheme_prefix(
                indexes[k],
                indexes,
                scheme,
            ) + slot_name,
    ensures
        spec_tags_to_slot_ranges(scheme, tags, tokens) == seq![
            SlotRangeView {
                slot_name: slot_name,
                byte_start: tokens[0].byte_start,
                byte_end: tokens[tokens.len() - 1].byte_end,
                char_start: tokens[0].char_start,
                char_end: tokens[tokens.len() - 1].char_end,
            },
        ],
{
    let n = tags.len() as int;
    assert forall|k: int| 0 <= k < n implies !spec_is_outside(#[trigger] tags[k]) && tags[k].len()
        == 2 + slot_name.len() && tags[k][1] == '-' && tags[k][0] == spec_scheme_prefix(
        indexes[k],
        indexes,
        scheme,
    )[0] by {
        let prefix = spec_scheme_prefix(indexes[k], indexes, scheme);
        assert(prefix.len() == 2 && prefix[1] == '-');
    }
    assert forall|j: int| 0 <= j < n implies #[trigger] spec_is_start_of_slot(scheme, tags, j) == (
    j == 0) by {
        if j > 0 {
            assert(indexes[0] < indexes[j]);
            if j < n - 1 {
                assert(indexes[j] < indexes[n - 1]);
            }
            assert(tags[j - 1][1] == '-');
            if j - 1 > 0 {
                assert(indexes[0] < indexes[j - 1]);
            }
            assert(indexes[j - 1] < indexes[n - 1]);
        }
    }
    assert forall|j: int| 0 <= j < n implies #[trigger] spec_is_end_of_slot(scheme, tags, j) == (j
        == n - 1) by {
        if j < n - 1 {
            assert(indexes[j] < indexes[n - 1]);
            if j + 1 > 0 {
                assert(indexes[0] < indexes[j + 1]);
            }
            if j + 1 < n - 1 {
                assert(indexes[j + 1] < indexes[n - 1]);
            }
            if j > 0 {
                assert(indexes[0] < indexes[j]);
            }
        }
    }
    lemma_roundtrip_state(scheme, tags, tokens, n - 1);
    assert(spec_slot_name_of(tags[n - 1]) =~= slot_name);
    assert(spec_tags_to_slot_ranges(scheme, tags, tokens) =~= seq![
        SlotRangeView {
            slot_name: slot_name,
            byte_start: tokens[0].byte_start,
            byte_end: tokens[n - 1].byte_end,
            char_start: tokens[0].char_start,
            char_end: tokens[n - 1].char_end,
        },
    ]);
}

/// The character for one decimal digit.
pub open spec fn spec_digit_char(d: u8) -> char
    recommends
        d < 10,
{
    if d == 0 {
        '0'
    } else if d == 1 {
        '1'
    } else if d == 2 {
        '2'
    } else if d == 3 {
        '3'
    } else if d == 4 {
        '4'
    } else if d == 5 {
        '5'
    } else if d == 6 {
        '6'
    } else if d == 7 {
        '7'
    } else if d == 8 {
        '8'
    } else {
        '9'
    }
}

/// The decimal notation of a byte, without leading zeroes.
pub open spec fn spec_u8_decimal(i: u8) -> Seq<char> {
    if i < 10 {
        seq![spec_digit_char(i)]
    } else if i < 100 {
        seq![spec_digit_char(i / 10), spec_digit_char(i % 10)]
    } else {
        seq![spec_digit_char(i / 100), spec_digit_char((i / 10) % 10), spec_digit_char(i % 10)]
    }
}

fn digit_str(d: u8) -> (r: &'static str)
    requires
        d < 10,
    ensures
        r@ == seq![spec_digit_char(d)],
{
    proof {
        reveal_strlit("0");
        reveal_strlit("1");
        reveal_strlit("2");
        reveal_strlit("3");
        reveal_strlit("4");
        reveal_strlit("5");
        reveal_strlit("6");
        reveal_strlit("7");
        reveal_strlit("8");
        reveal_strlit("9");
        assert("0"@ =~= seq!['0']);
        assert("1"@ =~= seq!['1']);
        assert("2"@ =~= seq!['2']);
        assert("3"@ =~= seq!['3']);
        assert("4"@ =~= seq!['4']);
        assert("5"@ =~= seq!['5']);
        assert("6"@ =~= seq!['6']);
        assert("7"@ =~= seq!['7']);
        assert("8"@ =~= seq!['8']);
        assert("9"@ =~= seq!['9']);
    }
    match d {
        0 => "0",
        1 => "1",
        2 => "2",
        3 => "3",
        4 => "4",
        5 => "5",
        6 => "6",
        7 => "7",
        8 => "8",
        _ => "9",
    }
}

/// A byte written out in decimal.
pub fn u8_to_string(i: u8) -> (r: String)
    ensures
        r@ == spec_u8_decimal(i),
{
    if i >= 100 {
        let r = String::from_str(digit_str(i / 100)).concat(digit_str((i / 10) % 10)).concat(
            digit_str(i % 10),
        );
        proof {
            assert(r@ =~= spec_u8_decimal(i));
        }
        r
    } else if i >= 10 {
        let r = String::from_str(digit_str(i / 10)).concat(digit_str(i % 10));
        proof {
            assert(r@ =~= spec_u8_decimal(i));
        }
        r
    } else {
        String::from_str(digit_str(i))
    }
}

impl TaggingError {
    /// The human-readable description of the failure.
    pub fn message(&self) -> (r: String)
        ensures
            ({
                match self {
                    TaggingError::InvalidSchemeIdentifier(i) => r@
                        == "Unknown tagging scheme identifier: "@ + spec_u8_decimal(*i),
                    TaggingError::MissingSlotEntityMapping(name) => r@
                        == "Missing slot to entity mapping for slot name: "@ + name@,
                }
            }),
    {
        match self {
            TaggingError::InvalidSchemeIdentifier(i) => {
                let r = String::from_str("Unknown tagging scheme identifier: ").concat(
                    u8_to_string(*i).as_str(),
                );
                r
            },
            TaggingError::MissingSlotEntityMapping(name) => {
                let r = String::from_str("Missing slot to entity mapping for slot name: ").concat(
                    name.as_str(),
                );
                r
            },
        }
    }
}

} // verus!
