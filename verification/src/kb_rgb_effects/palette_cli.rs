//! The `ambient-palette` command line: which subcommand runs, what its
//! arguments ask for, and what it does to the palette.
use vstd::prelude::*;
use crate::kb_rgb_effects::ambient::{
    parse_channel, parse_u8, palette_view, rgb_label, rgb_label_string, EntryView, PaletteEntry,
    storable_label, no_line_break, palette_file_spec, palette_from_file_spec,
    lemma_palette_file_round_trip, lemma_rgb_label_plain, lemma_reload_appended,
};
use crate::text::{
    chars_of, decimal, join, join_words, parse_range, push_char, push_decimal, push_str,
    same_text, texts, parse_unsigned, lemma_parse_decimal, lemma_join_plain,
};

verus! {

/// A colour channel.
#[derive(PartialEq, Eq, Structural, Debug, Clone, Copy)]
pub enum Channel {
    Red,
    Green,
    Blue,
}

/// Why a palette subcommand did nothing.
#[derive(PartialEq, Eq, Structural, Debug, Clone, Copy)]
pub enum PaletteError {
    /// Too few arguments: the subcommand's usage is shown.
    Usage,
    /// The argument at position `arg` is not a channel value (0 to 255).
    InvalidValue { channel: Channel, arg: usize },
    /// The first argument is not a palette position (1 or more).
    InvalidIndex,
    /// The position is past the end of the palette.
    OutOfRange { index: usize, len: usize },
}

/// The palette subcommands.
#[derive(PartialEq, Eq, Structural, Debug, Clone, Copy)]
pub enum PaletteCommand {
    List,
    Add,
    Remove,
    Edit,
    Reset,
    Unknown,
}

/// The subcommand that the first argument names; `list` when there is none.
pub open spec fn palette_command_spec(args: Seq<Seq<char>>) -> PaletteCommand {
    if args.len() == 0 || args[0] == "list"@ {
        PaletteCommand::List
    } else if args[0] == "add"@ {
        PaletteCommand::Add
    } else if args[0] == "remove"@ {
        PaletteCommand::Remove
    } else if args[0] == "edit"@ {
        PaletteCommand::Edit
    } else if args[0] == "reset"@ {
        PaletteCommand::Reset
    } else {
        PaletteCommand::Unknown
    }
}

/// Picks the palette subcommand; its own arguments follow the first.
pub fn palette_command(args: &[String]) -> (c: PaletteCommand)
    ensures
        c == palette_command_spec(texts(args@)),
{
    if args.len() == 0 {
        return PaletteCommand::List;
    }
    let ghost a = texts(args@);
    assert(a[0] == args@[0]@);
    let sub = args[0].as_str();
    if same_text(sub, "list") {
        PaletteCommand::List
    } else if same_text(sub, "add") {
        PaletteCommand::Add
    } else if same_text(sub, "remove") {
        PaletteCommand::Remove
    } else if same_text(sub, "edit") {
        PaletteCommand::Edit
    } else if same_text(sub, "reset") {
        PaletteCommand::Reset
    } else {
        PaletteCommand::Unknown
    }
}

/// Parses a whole argument as a channel value.
fn channel_arg(args: &[String], i: usize) -> (r: Option<u8>)
    requires
        i < args@.len(),
    ensures
        r == parse_channel(args@[i as int]@),
{
    parse_u8(args[i].as_str())
}

/// A palette position: a whole number of at least 1.
pub open spec fn palette_index(s: Seq<char>) -> Option<usize> {
    match parse_unsigned(s, usize::MAX as nat) {
        Some(v) => if v >= 1 {
            Some(v as usize)
        } else {
            None
        },
        None => None,
    }
}

/// Parses a whole argument as a palette position.
fn index_arg(args: &[String], i: usize) -> (r: Option<usize>)
    requires
        i < args@.len(),
    ensures
        r == palette_index(args@[i as int]@),
{
    let v = chars_of(args[i].as_str());
    assert(v@.subrange(0, v@.len() as int) =~= v@);
    match parse_range(&v, 0, v.len(), usize::MAX as u64) {
        Some(x) => if x >= 1 {
            Some(x as usize)
        } else {
            None
        },
        None => None,
    }
}

/// What `add <R> <G> <B> [label]` asks to add: the colour, and the remaining
/// arguments joined by spaces as its label, or `(R,G,B)` when there are none.
pub open spec fn add_spec(a: Seq<Seq<char>>) -> Result<EntryView, PaletteError> {
    if a.len() < 3 {
        Err(PaletteError::Usage)
    } else if parse_channel(a[0]) is None {
        Err(PaletteError::InvalidValue { channel: Channel::Red, arg: 0 })
    } else if parse_channel(a[1]) is None {
        Err(PaletteError::InvalidValue { channel: Channel::Green, arg: 1 })
    } else if parse_channel(a[2]) is None {
        Err(PaletteError::InvalidValue { channel: Channel::Blue, arg: 2 })
    } else {
        let r = parse_channel(a[0])->Some_0;
        let g = parse_channel(a[1])->Some_0;
        let b = parse_channel(a[2])->Some_0;
        Ok(
            (
                r,
                g,
                b,
                if a.len() > 3 {
                    join(a.skip(3), seq![' '])
                } else {
                    rgb_label(r, g, b)
                },
            ),
        )
    }
}

/// Reads the arguments of `add`: the entry to append to the palette.
pub fn parse_add(args: &[String]) -> (r: Result<PaletteEntry, PaletteError>)
    ensures
        match r {
            Ok(e) => add_spec(texts(args@)) == Ok::<EntryView, PaletteError>(e@),
            Err(x) => add_spec(texts(args@)) == Err::<EntryView, PaletteError>(x),
        },
{
    let ghost a = texts(args@);
    if args.len() < 3 {
        return Err(PaletteError::Usage);
    }
    assert(a[0] == args@[0]@ && a[1] == args@[1]@ && a[2] == args@[2]@);
    let r = match channel_arg(args, 0) {
        Some(x) => x,
        None => {
            return Err(PaletteError::InvalidValue { channel: Channel::Red, arg: 0 });
        },
    };
    let g = match channel_arg(args, 1) {
        Some(x) => x,
        None => {
            return Err(PaletteError::InvalidValue { channel: Channel::Green, arg: 1 });
        },
    };
    let b = match channel_arg(args, 2) {
        Some(x) => x,
        None => {
            return Err(PaletteError::InvalidValue { channel: Channel::Blue, arg: 2 });
        },
    };
    let label = if args.len() > 3 {
        join_words(args, 3)
    } else {
        rgb_label_string(r, g, b)
    };
    Ok(PaletteEntry { r, g, b, label })
}

/// What `remove <index>` asks to remove: the position given.
pub open spec fn remove_spec(a: Seq<Seq<char>>) -> Result<usize, PaletteError> {
    if a.len() == 0 {
        Err(PaletteError::Usage)
    } else {
        match palette_index(a[0]) {
            Some(i) => Ok(i),
            None => Err(PaletteError::InvalidIndex),
        }
    }
}

/// Reads the arguments of `remove`: the 1-based position to remove.
pub fn parse_remove(args: &[String]) -> (r: Result<usize, PaletteError>)
    ensures
        r == remove_spec(texts(args@)),
{
    if args.len() == 0 {
        return Err(PaletteError::Usage);
    }
    assert(texts(args@)[0] == args@[0]@);
    match index_arg(args, 0) {
        Some(i) => Ok(i),
        None => Err(PaletteError::InvalidIndex),
    }
}

/// Removes the entry at 1-based position `index`, and gives it back; a
/// position past the end leaves the palette as it is.
pub fn remove_entry(palette: &mut Vec<PaletteEntry>, index: usize) -> (r: Result<
    PaletteEntry,
    PaletteError,
>)
    requires
        index >= 1,
    ensures
        index > old(palette)@.len() ==> r == Err::<PaletteEntry, PaletteError>(
            PaletteError::OutOfRange { index, len: old(palette)@.len() as usize },
        ) && final(palette)@ == old(palette)@,
        index <= old(palette)@.len() ==> (r matches Ok(e) && e == old(palette)@[index - 1])
            && final(palette)@ == old(palette)@.remove(index - 1),
{
    if index > palette.len() {
        return Err(PaletteError::OutOfRange { index, len: palette.len() });
    }
    let e = palette.remove(index - 1);
    Ok(e)
}

/// The change that `edit` asks for.
#[derive(Debug)]
pub struct EditRequest {
    /// The 1-based position of the entry.
    pub index: usize,
    pub r: u8,
    pub g: u8,
    pub b: u8,
    /// The new label; without one the entry keeps its label.
    pub label: Option<String>,
}

/// An edit request as plain values.
pub type EditView = (usize, u8, u8, u8, Option<Seq<char>>);

impl View for EditRequest {
    type V = EditView;

    open spec fn view(&self) -> EditView {
        (
            self.index,
            self.r,
            self.g,
            self.b,
            match self.label {
                Some(l) => Some(l@),
                None => None,
            },
        )
    }
}

/// What `edit <index> <R> <G> <B> [label]` asks for.
pub open spec fn edit_spec(a: Seq<Seq<char>>) -> Result<EditView, PaletteError> {
    if a.len() < 4 {
        Err(PaletteError::Usage)
    } else if palette_index(a[0]) is None {
        Err(PaletteError::InvalidIndex)
    } else if parse_channel(a[1]) is None {
        Err(PaletteError::InvalidValue { channel: Channel::Red, arg: 1 })
    } else if parse_channel(a[2]) is None {
        Err(PaletteError::InvalidValue { channel: Channel::Green, arg: 2 })
    } else if parse_channel(a[3]) is None {
        Err(PaletteError::InvalidValue { channel: Channel::Blue, arg: 3 })
    } else {
        Ok(
            (
                palette_index(a[0])->Some_0,
                parse_channel(a[1])->Some_0,
                parse_channel(a[2])->Some_0,
                parse_channel(a[3])->Some_0,
                if a.len() > 4 {
                    Some(join(a.skip(4), seq![' ']))
                } else {
                    None
                },
            ),
        )
    }
}

/// Reads the arguments of `edit`.
pub fn parse_edit(args: &[String]) -> (r: Result<EditRequest, PaletteError>)
    ensures
        match r {
            Ok(q) => edit_spec(texts(args@)) == Ok::<EditView, PaletteError>(q@),
            Err(x) => edit_spec(texts(args@)) == Err::<EditView, PaletteError>(x),
        },
{
    let ghost a = texts(args@);
    if args.len() < 4 {
        return Err(PaletteError::Usage);
    }
    assert(a[0] == args@[0]@ && a[1] == args@[1]@ && a[2] == args@[2]@ && a[3] == args@[3]@);
    let index = match index_arg(args, 0) {
        Some(i) => i,
        None => {
            return Err(PaletteError::InvalidIndex);
        },
    };
    let r = match channel_arg(args, 1) {
        Some(x) => x,
        None => {
            return Err(PaletteError::InvalidValue { channel: Channel::Red, arg: 1 });
        },
    };
    let g = match channel_arg(args, 2) {
        Some(x) => x,
        None => {
            return Err(PaletteError::InvalidValue { channel: Channel::Green, arg: 2 });
        },
    };
    let b = match channel_arg(args, 3) {
        Some(x) => x,
        None => {
            return Err(PaletteError::InvalidValue { channel: Channel::Blue, arg: 3 });
        },
    };
    let label = if args.len() > 4 {
        Some(join_words(args, 4))
    } else {
        None
    };
    Ok(EditRequest { index, r, g, b, label })
}

/// The entry that an edit leaves at its position.
pub open spec fn edited_entry(old_entry: EntryView, q: EditView) -> EntryView {
    (
        q.1,
        q.2,
        q.3,
        match q.4 {
            Some(l) => l,
            None => old_entry.3,
        },
    )
}


/// An edit gives the entry the requested red, green and blue, whether or not
/// a label is given; only the label falls back to the old one.
pub proof fn lemma_edit_sets_colour(old_entry: EntryView, q: EditView)
    ensures
        edited_entry(old_entry, q).0 == q.1,
        edited_entry(old_entry, q).1 == q.2,
        edited_entry(old_entry, q).2 == q.3,
        q.4 is Some ==> edited_entry(old_entry, q).3 == q.4->Some_0,
        q.4 is None ==> edited_entry(old_entry, q).3 == old_entry.3,
{
}

/// Replaces the entry at the edit's position and gives back the entry it
/// replaced; a position past the end leaves the palette as it is.
pub fn apply_edit(palette: &mut Vec<PaletteEntry>, q: EditRequest) -> (r: Result<
    PaletteEntry,
    PaletteError,
>)
    requires
        q.index >= 1,
    ensures
        q.index > old(palette)@.len() ==> r == Err::<PaletteEntry, PaletteError>(
            PaletteError::OutOfRange { index: q.index, len: old(palette)@.len() as usize },
        ) && final(palette)@ == old(palette)@,
        q.index <= old(palette)@.len() ==> (r matches Ok(e) && e == old(palette)@[q.index - 1])
            && palette_view(final(palette)@) == palette_view(old(palette)@).update(
            q.index - 1,
            edited_entry(old(palette)@[q.index - 1]@, q@),
        ),
        q.index <= old(palette)@.len() ==> {
            &&& final(palette)@.len() == old(palette)@.len()
            &&& final(palette)@[q.index - 1].r == q.r
            &&& final(palette)@[q.index - 1].g == q.g
            &&& final(palette)@[q.index - 1].b == q.b
            &&& final(palette)@[q.index - 1].label@ == match q.label {
                Some(l) => l@,
                None => old(palette)@[q.index - 1].label@,
            }
            &&& forall|j: int|
                0 <= j < old(palette)@.len() && j != q.index - 1 ==> #[trigger] final(palette)@[j]
                    == old(palette)@[j]
        },
{
    if q.index > palette.len() {
        return Err(PaletteError::OutOfRange { index: q.index, len: palette.len() });
    }
    let i = q.index - 1;
    let old_entry = palette.remove(i);
    let label = match q.label {
        Some(l) => l,
        None => old_entry.label.clone(),
    };
    let ghost qv = q@;
    palette.insert(i, PaletteEntry { r: q.r, g: q.g, b: q.b, label });
    assert(palette@ =~= old(palette)@.update(i as int, palette@[i as int]));
    assert(palette_view(palette@) =~= palette_view(old(palette)@).update(
        i as int,
        edited_entry(old(palette)@[i as int]@, qv),
    ));
    Ok(old_entry)
}


/// Adding an entry and then removing the last position gives back the
/// palette file that was there before: for a non-empty palette with storable
/// labels, any successful `add` whose arguments hold no line break, and
/// `remove` given the new last position written in decimal.
pub proof fn lemma_add_then_remove_last(es: Seq<EntryView>, args: Seq<Seq<char>>)
    requires
        es.len() > 0,
        es.len() < usize::MAX,
        forall|i: int| 0 <= i < es.len() ==> storable_label(#[trigger] es[i].3),
        add_spec(args) is Ok,
        forall|i: int, k: int| 0 <= i < args.len() && 0 <= k < args[i].len() ==> args[i][k] != '\n',
    ensures
        palette_from_file_spec(palette_file_spec(es)) == Some(es),
        remove_spec(seq![decimal((es.len() + 1) as nat)]) == Ok::<usize, PaletteError>(
            (es.len() + 1) as usize,
        ),
        palette_from_file_spec(palette_file_spec(es.push(add_spec(args)->Ok_0))) matches Some(q)
            && q.len() == es.len() + 1 && q.remove(es.len() as int) == es && palette_file_spec(
            q.remove(es.len() as int),
        ) == palette_file_spec(es),
{
    lemma_palette_file_round_trip(es);
    let n1 = (es.len() + 1) as nat;
    lemma_parse_decimal(n1, usize::MAX as nat);
    assert(seq![decimal(n1)][0] == decimal(n1));
    let e = add_spec(args)->Ok_0;
    if args.len() > 3 {
        let words = args.skip(3);
        assert forall|i: int, k: int| 0 <= i < words.len() && 0 <= k < words[i].len() implies words[i][k] != '\n' by {
            assert(words[i] == args[i + 3]);
        }
        lemma_join_plain(words, seq![' '], '\n');
    } else {
        lemma_rgb_label_plain(e.0, e.1, e.2);
    }
    assert(no_line_break(e.3));
    lemma_reload_appended(es, e);
    let q = palette_from_file_spec(palette_file_spec(es.push(e)))->Some_0;
    assert(q.remove(es.len() as int) =~= q.drop_last());
}

/// `s` right-aligned in a field of `width` characters, as `{:>width}` pads it.
pub open spec fn pad_left(s: Seq<char>, width: nat) -> Seq<char> {
    if s.len() < width {
        Seq::new((width - s.len()) as nat, |i: int| ' ') + s
    } else {
        s
    }
}

/// How `list` shows the entry at 1-based position `position`:
/// `  NN. (RRR,GGG,BBB)  Label`, numbers right-aligned.
pub open spec fn list_line_spec(position: nat, e: EntryView) -> Seq<char> {
    seq![' ', ' '] + pad_left(decimal(position), 2) + seq!['.', ' ', '('] + pad_left(
        decimal(e.0 as nat),
        3,
    ) + seq![','] + pad_left(decimal(e.1 as nat), 3) + seq![','] + pad_left(decimal(e.2 as nat), 3)
        + seq![')', ' ', ' '] + e.3
}

/// The number of digits of `n`.
fn decimal_len(n: u64) -> (l: u64)
    ensures
        l == decimal(n as nat).len(),
        l <= n + 1,
    decreases n,
{
    if n < 10 {
        1
    } else {
        decimal_len(n / 10) + 1
    }
}

/// Appends `n` right-aligned in a field of `width` characters.
fn push_padded(out: &mut String, n: u64, width: usize)
    ensures
        final(out)@ == old(out)@ + pad_left(decimal(n as nat), width as nat),
{
    let l = decimal_len(n);
    let w = width as u64;
    let ghost base = out@;
    if l < w {
        let mut k: u64 = 0;
        while k < w - l
            invariant
                l < w,
                w == width,
                k <= w - l,
                out@ == base + Seq::new(k as nat, |i: int| ' '),
            decreases w - l - k,
        {
            push_char(out, ' ');
            k = k + 1;
            assert(out@ =~= base + Seq::new(k as nat, |i: int| ' '));
        }
    }
    push_decimal(out, n);
    assert(out@ =~= base + pad_left(decimal(n as nat), width as nat));
}

/// The line that `list` shows for the entry at 1-based position `position`.
pub fn palette_list_line(position: usize, e: &PaletteEntry) -> (s: String)
    ensures
        s@ == list_line_spec(position as nat, e@),
{
    let mut s = String::new();
    push_char(&mut s, ' ');
    push_char(&mut s, ' ');
    push_padded(&mut s, position as u64, 2);
    push_char(&mut s, '.');
    push_char(&mut s, ' ');
    push_char(&mut s, '(');
    push_padded(&mut s, e.r as u64, 3);
    push_char(&mut s, ',');
    push_padded(&mut s, e.g as u64, 3);
    push_char(&mut s, ',');
    push_padded(&mut s, e.b as u64, 3);
    push_char(&mut s, ')');
    push_char(&mut s, ' ');
    push_char(&mut s, ' ');
    push_str(&mut s, e.label.as_str());
    assert(s@ =~= list_line_spec(position as nat, e@));
    s
}

} // verus!
