//! How often each message type occurred.
use crate::ansi::{capped, pad_ansi, padded, plus, shown_width, visible_width};
use crate::colours::ColourPalette;
use crate::display::less;
use crate::message_groups::{bucket_of, classify_message_bucket, MessageBucket};
use crate::text::{
    copy_of, decimal, decimal_text, left_aligned, push_left_aligned, push_repeated,
    push_right_aligned, repeated, right_aligned, text_view,
};
use crate::textmap::{sorted, TextMap};
use vstd::prelude::*;

verus! {

broadcast use vstd::seq_lib::group_seq_properties;

/// How often a message type occurred, its name, and its kind.
#[derive(Debug)]
pub struct MsgTypeCount {
    pub count: usize,
    pub label: Option<String>,
    pub bucket: MessageBucket,
}

/// The mathematical content of a `MsgTypeCount`.
pub struct CountView {
    pub count: usize,
    pub label: Option<Seq<char>>,
    pub bucket: MessageBucket,
}

impl View for MsgTypeCount {
    type V = CountView;

    open spec fn view(&self) -> CountView {
        CountView { count: self.count, label: text_view(self.label), bucket: self.bucket }
    }
}

/// Counts by message type.
pub type Counts = Map<Seq<char>, CountView>;

pub open spec fn count_views(counts: Map<Seq<char>, MsgTypeCount>) -> Counts {
    counts.map_values(|c: MsgTypeCount| c@)
}

pub open spec fn no_count() -> CountView {
    CountView { count: 0, label: None, bucket: MessageBucket::BusinessOther }
}

pub open spec fn count_for(counts: Counts, msg_type: Seq<char>) -> CountView {
    if counts.contains_key(msg_type) {
        counts[msg_type]
    } else {
        no_count()
    }
}

impl Default for MsgTypeCount {
    fn default() -> (count: MsgTypeCount)
        ensures
            count@ == no_count(),
    {
        MsgTypeCount { count: 0, label: None, bucket: MessageBucket::BusinessOther }
    }
}

pub(crate) fn copy_label(label: &Option<String>) -> (copy: Option<String>)
    ensures
        text_view(copy) == text_view(*label),
{
    match label {
        Some(text) => Some(copy_of(text.as_str())),
        None => None,
    }
}

impl MsgTypeCount {
    pub fn duplicate(&self) -> (copy: MsgTypeCount)
        ensures
            copy@ == self@,
    {
        MsgTypeCount {
            count: self.count,
            label: copy_label(&self.label),
            bucket: self.bucket,
        }
    }
}

/// One more message of a type: the name is kept once it is known, the kind is the latest.
pub open spec fn counted_once(
    counts: Counts,
    msg_type: Seq<char>,
    label: Option<Seq<char>>,
    category: Option<Seq<char>>,
) -> Counts {
    let before = count_for(counts, msg_type);
    counts.insert(
        msg_type,
        CountView {
            count: capped(before.count + 1) as usize,
            label: if before.label is None {
                label
            } else {
                before.label
            },
            bucket: bucket_of(msg_type, label, category),
        },
    )
}

/// Counts one more message of a type.
pub fn count_message(
    counts: &mut TextMap<MsgTypeCount>,
    msg_type: &str,
    label: Option<&str>,
    msg_cat: Option<&str>,
)
    ensures
        count_views(final(counts)@) == counted_once(
            count_views(old(counts)@),
            msg_type@,
            crate::dictionaries::opt_str(label),
            crate::dictionaries::opt_str(msg_cat),
        ),
{
    let ghost before = counts@;
    let bucket = classify_message_bucket(msg_type, label, msg_cat);
    let known: Option<String> = match label {
        Some(text) => Some(copy_of(text)),
        None => None,
    };
    let next = match counts.get(msg_type) {
        Some(old) => MsgTypeCount {
            count: plus(old.count, 1),
            label: if old.label.is_none() {
                known
            } else {
                copy_label(&old.label)
            },
            bucket,
        },
        None => MsgTypeCount { count: 1, label: known, bucket },
    };
    let ghost view = next@;
    counts.insert(msg_type, next);
    assert(count_views(counts@) =~= count_views(before).insert(msg_type@, view));
}

/// Two counts of the same type put together.
pub open spec fn merged_count(a: CountView, b: CountView) -> CountView {
    CountView {
        count: capped(a.count + b.count) as usize,
        label: if a.label is None {
            b.label
        } else {
            a.label
        },
        bucket: if a.bucket == MessageBucket::BusinessOther {
            b.bucket
        } else {
            a.bucket
        },
    }
}

/// Two sets of counts put together.
pub open spec fn merged(a: Counts, b: Counts) -> Counts {
    Map::new(
        |k: Seq<char>| a.contains_key(k) || b.contains_key(k),
        |k: Seq<char>|
            if b.contains_key(k) {
                merged_count(count_for(a, k), b[k])
            } else {
                a[k]
            },
    )
}

/// Adds the counts of another source.
pub fn merge_message_counts(target: &mut TextMap<MsgTypeCount>, source: &TextMap<MsgTypeCount>)
    ensures
        count_views(final(target)@) == merged(count_views(old(target)@), count_views(source@)),
{
    source.know_keys();
    let ghost keys = source.keys();
    let ghost a = count_views(target@);
    let ghost b = count_views(source@);
    let count: usize = source.len();
    let mut i: usize = 0;
    while i < count
        invariant
            i <= count,
            count == keys.len(),
            keys == source.keys(),
            keys.no_duplicates(),
            b == count_views(source@),
            forall|k: Seq<char>| #[trigger]
                target@.contains_key(k) <==> a.contains_key(k) || keys.take(i as int).contains(k),
            forall|k: Seq<char>| #[trigger]
                target@.contains_key(k) ==> target@[k]@ == if keys.take(i as int).contains(k) {
                    merged_count(count_for(a, k), b[k])
                } else {
                    a[k]
                },
        decreases count - i,
    {
        let (key, info) = source.entry(i);
        let ghost before = target@;
        let ghost done = keys.take(i as int);
        assert(!done.contains(key@)) by {
            if done.contains(key@) {
                let j = choose|j: int| 0 <= j < done.len() && done[j] == key@;
                assert(keys[j] == keys[i as int]);
            }
        }
        assert(before.contains_key(key@) == a.contains_key(key@));
        let next = match target.get(key.as_str()) {
            Some(entry) => MsgTypeCount {
                count: plus(entry.count, info.count),
                label: if entry.label.is_none() {
                    copy_label(&info.label)
                } else {
                    copy_label(&entry.label)
                },
                bucket: if entry.bucket == MessageBucket::BusinessOther {
                    info.bucket
                } else {
                    entry.bucket
                },
            },
            None => info.duplicate(),
        };
        assert(next@ == merged_count(count_for(a, key@), b[key@]));
        target.insert(key.as_str(), next);
        proof {
            let longer = keys.take(i + 1);
            assert(longer =~= done.push(key@));
            assert forall|k: Seq<char>| longer.contains(k) == (done.contains(k) || k == key@) by {
                if done.contains(k) {
                    let j = choose|j: int| 0 <= j < done.len() && done[j] == k;
                    assert(longer[j] == k);
                }
                if k == key@ {
                    assert(longer[i as int] == k);
                }
                if longer.contains(k) {
                    let j = choose|j: int| 0 <= j < longer.len() && longer[j] == k;
                    if j < i {
                        assert(done[j] == k);
                    }
                }
            }
            assert forall|k: Seq<char>| #[trigger] target@.contains_key(k) <==> a.contains_key(k)
                || longer.contains(k) by {
                assert(target@.contains_key(k) == (before.contains_key(k) || k == key@));
            }
            assert forall|k: Seq<char>| #[trigger] target@.contains_key(k) implies target@[k]@
                == if longer.contains(k) {
                merged_count(count_for(a, k), b[k])
            } else {
                a[k]
            } by {
                if k != key@ {
                    assert(before.contains_key(k));
                }
            }
        }
        i += 1;
    }
    proof {
        assert(keys.take(keys.len() as int) =~= keys);
        assert(count_views(target@) =~= merged(a, b));
    }
}

/// The kinds in the order in which they are listed.
pub open spec fn bucket_at(n: int) -> MessageBucket {
    if n == 0 {
        MessageBucket::SessionAdmin
    } else if n == 1 {
        MessageBucket::OrderFlow
    } else if n == 2 {
        MessageBucket::MarketData
    } else {
        MessageBucket::BusinessOther
    }
}

/// Those of the types that are of a kind.
pub open spec fn of_bucket(keys: Seq<Seq<char>>, counts: Counts, bucket: MessageBucket) -> Seq<
    Seq<char>,
>
    decreases keys.len(),
{
    if keys.len() == 0 {
        seq![]
    } else if counts[keys.last()].bucket == bucket {
        of_bucket(keys.drop_last(), counts, bucket).push(keys.last())
    } else {
        of_bucket(keys.drop_last(), counts, bucket)
    }
}

/// The name of a message type, in brackets.
pub open spec fn label_text(info: CountView, c: ColourPalette) -> Seq<char> {
    c.reset@ + "("@ + c.enumeration@ + (match info.label {
        Some(text) => text,
        None => ""@,
    }) + ")"@ + c.reset@
}

/// The width of the widest name.
pub open spec fn widest_label(keys: Seq<Seq<char>>, counts: Counts, c: ColourPalette) -> nat
    decreases keys.len(),
{
    if keys.len() == 0 {
        0
    } else {
        let before = widest_label(keys.drop_last(), counts, c);
        let here = shown_width(label_text(counts[keys.last()], c));
        if here > before {
            here
        } else {
            before
        }
    }
}

pub open spec fn row_indent(business: bool) -> Seq<char> {
    if business {
        "    "@
    } else {
        "  "@
    }
}

/// The line of a message type.
pub open spec fn count_line(
    msg_type: Seq<char>,
    info: CountView,
    width: nat,
    business: bool,
    c: ColourPalette,
) -> Seq<char> {
    row_indent(business) + c.value@ + left_aligned(msg_type, 3) + c.reset@ + "   "@ + padded(
        label_text(info, c),
        width,
    ) + "   "@ + c.value@ + right_aligned(decimal(info.count as nat), 6, ' ') + c.reset@ + "\n"@
}

/// The lines of the message types.
pub open spec fn count_lines(
    keys: Seq<Seq<char>>,
    counts: Counts,
    width: nat,
    business: bool,
    c: ColourPalette,
) -> Seq<char>
    decreases keys.len(),
{
    if keys.len() == 0 {
        seq![]
    } else {
        count_lines(keys.drop_last(), counts, width, business, c) + count_line(
            keys.last(),
            counts[keys.last()],
            width,
            business,
            c,
        )
    }
}

/// The heading of a kind, with the rule and the titles of the columns under it.
pub open spec fn count_heading(
    bucket: MessageBucket,
    width: nat,
    business: bool,
    c: ColourPalette,
) -> Seq<char> {
    let prefix: int = if business {
        4
    } else {
        2
    };
    let column = capped(prefix + 9 + width);
    let rule = less(capped(column + 6), prefix);
    let gap = less(column, prefix + 12);
    (if business {
        "  "@
    } else {
        ""@
    }) + c.name@ + bucket.title() + ":"@ + c.reset@ + "\n"@ + row_indent(business) + c.title@
        + repeated('-', rule as nat) + c.reset@ + "\n"@ + row_indent(business) + "Message Type"@
        + repeated(' ', gap as nat) + "Count:\n"@
}

/// The counts of a kind.
pub open spec fn bucket_text(
    bucket: MessageBucket,
    keys: Seq<Seq<char>>,
    counts: Counts,
    c: ColourPalette,
) -> Seq<char> {
    let business = bucket != MessageBucket::SessionAdmin;
    let width = widest_label(keys, counts, c);
    count_heading(bucket, width, business, c) + count_lines(keys, counts, width, business, c)
}

/// The counts of the first kinds, whether any were listed, and whether any of them are
/// about business.
pub struct Listed {
    pub text: Seq<char>,
    pub any: bool,
    pub business: bool,
}

/// The counts of a kind: with a gap behind earlier ones, and with a title where it is the
/// first about business.
pub open spec fn bucket_part(
    any: bool,
    business: bool,
    bucket: MessageBucket,
    keys: Seq<Seq<char>>,
    counts: Counts,
    c: ColourPalette,
) -> Seq<char> {
    (if any {
        "\n"@
    } else {
        ""@
    }) + (if bucket != MessageBucket::SessionAdmin && !business {
        c.title@ + "Business:"@ + c.reset@ + "\n"@
    } else {
        ""@
    }) + bucket_text(bucket, keys, counts, c)
}

pub open spec fn listed_buckets(
    keys: Seq<Seq<char>>,
    counts: Counts,
    n: int,
    c: ColourPalette,
) -> Listed
    decreases n,
{
    if n <= 0 {
        Listed { text: seq![], any: false, business: false }
    } else {
        let before = listed_buckets(keys, counts, n - 1, c);
        let bucket = bucket_at(n - 1);
        let members = of_bucket(keys, counts, bucket);
        let business = bucket != MessageBucket::SessionAdmin;
        if members.len() == 0 {
            before
        } else {
            Listed {
                text: before.text + bucket_part(
                    before.any,
                    before.business,
                    bucket,
                    members,
                    counts,
                    c,
                ),
                any: true,
                business: before.business || business,
            }
        }
    }
}

/// The counts, by kind and within a kind by type.
pub open spec fn counts_text(counts: Counts, c: ColourPalette) -> Seq<char> {
    let keys = sorted(counts.dom());
    if keys.len() == 0 {
        seq![]
    } else {
        c.title@ + "Message Counts:"@ + c.reset@ + "\n"@ + listed_buckets(keys, counts, 4, c).text
    }
}

/// A message type with its count.
struct CountedType<'a> {
    msg_type: &'a String,
    info: &'a MsgTypeCount,
}

spec fn types_in(list: Seq<CountedType<'_>>) -> Seq<Seq<char>> {
    list.map_values(|t: CountedType<'_>| t.msg_type@)
}

/// The list holds what the counts say of its types.
spec fn agrees(list: Seq<CountedType<'_>>, counts: Counts) -> bool {
    forall|i: int| 0 <= i < list.len() ==> (#[trigger] list[i]).info@ == counts[list[i].msg_type@]
}

fn collect_bucket<'a>(counts: &'a TextMap<MsgTypeCount>, bucket: MessageBucket) -> (list: Vec<
    CountedType<'a>,
>)
    ensures
        types_in(list@) == of_bucket(
            sorted(counts@.dom()),
            count_views(counts@),
            bucket,
        ),
        agrees(list@, count_views(counts@)),
{
    counts.know_keys();
    let ghost keys = counts.keys();
    let ghost views = count_views(counts@);
    let total: usize = counts.len();
    let mut list: Vec<CountedType<'a>> = Vec::new();
    let mut i: usize = 0;
    assert(types_in(list@) =~= of_bucket(keys.take(0), views, bucket));
    while i < total
        invariant
            i <= total,
            total == keys.len(),
            keys == counts.keys(),
            views == count_views(counts@),
            types_in(list@) == of_bucket(keys.take(i as int), views, bucket),
            agrees(list@, views),
        decreases total - i,
    {
        let (msg_type, info) = counts.entry(i);
        assert(keys.take(i + 1).drop_last() =~= keys.take(i as int));
        assert(views[msg_type@] == info@);
        let ghost before = list@;
        if info.bucket == bucket {
            list.push(CountedType { msg_type, info });
            assert(types_in(list@) =~= types_in(before).push(msg_type@));
        }
        i += 1;
    }
    assert(keys.take(keys.len() as int) =~= keys);
    list
}

fn format_label(info: &MsgTypeCount, colours: ColourPalette) -> (text: String)
    ensures
        text@ == label_text(info@, colours),
{
    let mut text = copy_of(colours.reset);
    text.append("(");
    text.append(colours.enumeration);
    match &info.label {
        Some(label) => text.append(label.as_str()),
        None => text.append(""),
    }
    text.append(")");
    text.append(colours.reset);
    text
}

fn render_message_count_group(
    bucket: MessageBucket,
    entries: &Vec<CountedType<'_>>,
    Ghost(counts): Ghost<Counts>,
    colours: ColourPalette,
) -> (text: String)
    requires
        agrees(entries@, counts),
    ensures
        text@ == bucket_text(bucket, types_in(entries@), counts, colours),
{
    let ghost keys = types_in(entries@);
    let business: bool = bucket.is_business();
    let mut width: usize = 0;
    let mut i: usize = 0;
    while i < entries.len()
        invariant
            i <= entries@.len(),
            keys == types_in(entries@),
            agrees(entries@, counts),
            width == widest_label(keys.take(i as int), counts, colours),
        decreases entries@.len() - i,
    {
        assert(keys.take(i + 1).drop_last() =~= keys.take(i as int));
        assert(keys.take(i + 1).last() == entries@[i as int].msg_type@);
        let here: usize = visible_width(format_label(entries[i].info, colours).as_str());
        if here > width {
            width = here;
        }
        i += 1;
    }
    assert(keys.take(keys.len() as int) =~= keys);
    let prefix: usize = if business {
        4
    } else {
        2
    };
    let row = if business {
        "    "
    } else {
        "  "
    };
    let column: usize = plus(plus(prefix, 9), width);
    let rule: usize = plus(column, 6).saturating_sub(prefix);
    let gap: usize = column.saturating_sub(prefix + 12);
    let mut text = copy_of(
        if business {
            "  "
        } else {
            ""
        },
    );
    text.append(colours.name);
    text.append(bucket.heading());
    text.append(":");
    text.append(colours.reset);
    text.append("\n");
    text.append(row);
    text.append(colours.title);
    push_repeated(&mut text, '-', rule);
    text.append(colours.reset);
    text.append("\n");
    text.append(row);
    text.append("Message Type");
    push_repeated(&mut text, ' ', gap);
    text.append("Count:\n");
    let ghost head = text@;
    let mut k: usize = 0;
    assert(head + count_lines(keys.take(0), counts, width as nat, business, colours) =~= head);
    while k < entries.len()
        invariant
            k <= entries@.len(),
            keys == types_in(entries@),
            agrees(entries@, counts),
            row@ == row_indent(business),
            text@ == head + count_lines(
                keys.take(k as int),
                counts,
                width as nat,
                business,
                colours,
            ),
        decreases entries@.len() - k,
    {
        assert(keys.take(k + 1).drop_last() =~= keys.take(k as int));
        assert(keys.take(k + 1).last() == entries@[k as int].msg_type@);
        let ghost before = text@;
        let label = format_label(entries[k].info, colours);
        let mut line = copy_of(row);
        line.append(colours.value);
        push_left_aligned(&mut line, entries[k].msg_type.as_str(), 3);
        line.append(colours.reset);
        line.append("   ");
        line.append(pad_ansi(label.as_str(), width).as_str());
        line.append("   ");
        line.append(colours.value);
        push_right_aligned(
            &mut line,
            decimal_text(entries[k].info.count as u64).as_str(),
            6,
            ' ',
        );
        line.append(colours.reset);
        line.append("\n");
        text.append(line.as_str());
        assert(text@ =~= head + count_lines(
            keys.take(k + 1),
            counts,
            width as nat,
            business,
            colours,
        ));
        k += 1;
    }
    assert(keys.take(keys.len() as int) =~= keys);
    text
}

fn render_bucket(
    any: bool,
    business: bool,
    bucket: MessageBucket,
    entries: &Vec<CountedType<'_>>,
    Ghost(counts): Ghost<Counts>,
    colours: ColourPalette,
) -> (text: String)
    requires
        agrees(entries@, counts),
    ensures
        text@ == bucket_part(any, business, bucket, types_in(entries@), counts, colours),
{
    let mut text = copy_of(
        if any {
            "\n"
        } else {
            ""
        },
    );
    let mut title = copy_of("");
    if bucket.is_business() && !business {
        title = copy_of(colours.title);
        title.append("Business:");
        title.append(colours.reset);
        title.append("\n");
    }
    text.append(title.as_str());
    text.append(render_message_count_group(bucket, entries, Ghost(counts), colours).as_str());
    text
}

/// The kind at a place of the listing.
pub fn listed_bucket(n: usize) -> (bucket: MessageBucket)
    ensures
        bucket == bucket_at(n as int),
{
    if n == 0 {
        MessageBucket::SessionAdmin
    } else if n == 1 {
        MessageBucket::OrderFlow
    } else if n == 2 {
        MessageBucket::MarketData
    } else {
        MessageBucket::BusinessOther
    }
}

/// The counts, by kind and within a kind by type.
pub fn render_message_counts(
    message_counts: &TextMap<MsgTypeCount>,
    colours: ColourPalette,
) -> (text: String)
    ensures
        text@ == counts_text(count_views(message_counts@), colours),
{
    message_counts.know_keys();
    let ghost keys = message_counts.keys();
    let ghost views = count_views(message_counts@);
    assert(views.dom() =~= message_counts@.dom());
    if message_counts.len() == 0 {
        return String::new();
    }
    let mut text = copy_of(colours.title);
    text.append("Message Counts:");
    text.append(colours.reset);
    text.append("\n");
    let ghost head = text@;
    let mut any: bool = false;
    let mut business: bool = false;
    let mut n: usize = 0;
    assert(head + seq![] =~= head);
    while n < 4
        invariant
            n <= 4,
            keys == sorted(message_counts@.dom()),
            views == count_views(message_counts@),
            ({
                let listed = listed_buckets(keys, views, n as int, colours);
                &&& text@ == head + listed.text
                &&& any == listed.any
                &&& business == listed.business
            }),
        decreases 4 - n,
    {
        let ghost before = text@;
        let bucket = listed_bucket(n);
        let entries = collect_bucket(message_counts, bucket);
        if entries.len() > 0 {
            let ghost listed = listed_buckets(keys, views, n as int, colours);
            let part = render_bucket(any, business, bucket, &entries, Ghost(views), colours);
            text.append(part.as_str());
            assert(text@ =~= head + (listed.text + part@));
            any = true;
            business = business || bucket.is_business();
        }
        n += 1;
    }
    text
}

} // verus!
