//! A person's records as parts: what they said, the files they sent with it,
//! the commands they ran, and the moment they stopped the agent.
use vstd::prelude::*;
use vstd::utf8::encode_utf8;
use crate::paths::{file_name, file_name_of};
use crate::text::{chars_of, decimal_text, push_decimal, string_of};
use crate::transcript::assets::{digest_id, mime_of, sha256, AssetNaming};
use crate::transcript::command::{between, command_output, spoken_command, CommandTags, SlashCommand};
use crate::transcript::content::ContentBlock;
use crate::transcript::json::{str_field, Json};
use crate::transcript::mapper::{output_part_is, status_part_is, text_part_is, TurnMapper};
use crate::transcript::question::text_of;
use crate::transcript::record::{interrupted_record, is_command_record, record_blocks, record_plain, Record};
use crate::transcript::sent::{readable, split_sent, stored_in, SentFiles};
use crate::transcript::speaker::{judges_as, queued_text_of, tags_view};
use crate::transcript::turn::Part;

verus! {

/// The name a file's card shows: a file this machine stored loses the digest
/// prefix it is stored behind; any other shows its own name, or the whole
/// path when it has none.
pub open spec fn card_name(path: Seq<char>, uploads: Option<Seq<char>>) -> Seq<char> {
    if uploads matches Some(u) && stored_in(path, u) {
        readable(path)
    } else {
        match file_name(path) {
            Some(n) => n,
            None => path,
        }
    }
}

/// What a file's card reads as to a peer that cannot draw one: its name, and
/// its size when that is known.
pub open spec fn card_fallback(name: Seq<char>, size: Option<u64>) -> Seq<char> {
    match size {
        Some(n) => name + " ("@ + decimal_text(n as nat) + " bytes)"@,
        None => name,
    }
}

/// Whether `p` is the card for the file at `path`, whose canonical spelling
/// is `canonical`: the asset id is minted from that spelling.
pub open spec fn card_part_is(
    p: Part,
    path: Seq<char>,
    uploads: Option<Seq<char>>,
    mime: Option<Seq<char>>,
    size: Option<u64>,
    canonical: Seq<char>,
) -> bool {
    p matches Part::File { asset, name, mime: m, size: s, fallback_text }
        && asset.id@ == digest_id(sha256(encode_utf8(canonical)))
        && name@ == card_name(path, uploads)
        && text_of(m) == mime
        && s == size
        && fallback_text@ == card_fallback(card_name(path, uploads), size)
}

/// One part a person's record shows as, before it is built.
pub enum Piece {
    Text(Seq<char>),
    Status(Seq<char>),
    Image(Json),
    Output(Seq<char>, Seq<char>),
    Card(Seq<char>),
}

/// The label a stopped response is marked with.
pub open spec fn interrupted_label() -> Seq<char> {
    "Interrupted"@
}

/// What a slash command's record shows as: the person's line, then what it
/// printed; or the output alone under a generic name when no line reads back.
pub open spec fn command_pieces(tags: CommandTags, text: Seq<char>) -> Seq<Piece> {
    match spoken_command(tags, text) {
        Some(c) => match command_output(tags, text) {
            Some(o) => seq![Piece::Text(c), Piece::Output(c, o)],
            None => seq![Piece::Text(c)],
        },
        None => match command_output(tags, text) {
            Some(o) => seq![Piece::Output("command output"@, o)],
            None => Seq::empty(),
        },
    }
}

/// What a person said as pieces: their words, then a card for each file this
/// machine stored and named in the prompt. Words that were only files show
/// only the cards; with no upload directory nothing is lifted.
pub open spec fn spoken_pieces(text: Seq<char>, uploads: Option<Seq<char>>) -> Seq<Piece> {
    match uploads {
        None => seq![Piece::Text(text)],
        Some(u) => {
            let (spoken, sent) = split_sent(text, u);
            (if spoken.len() > 0 {
                seq![Piece::Text(spoken)]
            } else {
                Seq::empty()
            }) + sent.map_values(|p: Seq<char>| Piece::Card(p))
        },
    }
}

/// The blocks of a person's record that show: words that are not noise, and
/// images.
pub open spec fn block_pieces(blocks: Seq<ContentBlock>, noise: spec_fn(Seq<char>) -> bool) -> Seq<Piece>
    decreases blocks.len(),
{
    if blocks.len() == 0 {
        Seq::empty()
    } else {
        let before = block_pieces(blocks.drop_last(), noise);
        match blocks.last() {
            ContentBlock::Text { text } => if noise(text@) {
                before
            } else {
                before.push(Piece::Text(text@))
            },
            ContentBlock::Image { source } => before.push(Piece::Image(source)),
            _ => before,
        }
    }
}

/// What a record in the person's role shows as.
///
/// A command they ran shows as its line. Otherwise an interruption is marked
/// first, as a record can carry the marker and their next words together;
/// then words queued while the agent worked, or the record's words, unless
/// they are noise, with a slash command in them shown as a command; or, for a
/// record of blocks, each block that shows.
pub open spec fn operator_pieces(
    tags: Option<CommandTags>,
    uploads: Option<Seq<char>>,
    r: Record,
    noise: spec_fn(Seq<char>) -> bool,
) -> Seq<Piece> {
    if is_command_record(r, tags) {
        match r.content {
            Some(c) => match spoken_command(tags->0, c@) {
                Some(s) => seq![Piece::Text(s)],
                None => Seq::empty(),
            },
            None => Seq::empty(),
        }
    } else {
        let head = if interrupted_record(r) {
            seq![Piece::Status(interrupted_label())]
        } else {
            Seq::empty()
        };
        head + if queued_text_of(r) is Some {
            let q = queued_text_of(r)->0;
            if noise(q) {
                Seq::empty()
            } else {
                spoken_pieces(q, uploads)
            }
        } else if record_plain(r) is Some {
            let t = record_plain(r)->0;
            if tags is Some && (between(t, tags->0.name@) is Some || between(t, tags->0.stdout@) is Some) {
                command_pieces(tags->0, t)
            } else if noise(t) {
                Seq::empty()
            } else {
                spoken_pieces(t, uploads)
            }
        } else {
            block_pieces(record_blocks(r), noise)
        }
    }
}

/// Whether `canonical` answers as `canon` says: the canonical spelling of each
/// path, as a function of the path.
pub open spec fn spells_as<G: Fn(&str) -> String>(canonical: G, canon: spec_fn(Seq<char>) -> Seq<char>) -> bool {
    forall|t: &str, c: String| #[trigger] canonical.ensures((t,), c) ==> c@ == canon(t@)
}

/// Whether `p` is the part `piece` describes.
pub open spec fn piece_part_is(
    p: Part,
    piece: Piece,
    uploads: Option<Seq<char>>,
    canon: spec_fn(Seq<char>) -> Seq<char>,
) -> bool {
    match piece {
        Piece::Text(t) => text_part_is(p, t),
        Piece::Status(l) => status_part_is(p, l),
        Piece::Image(source) => p matches Part::Unknown { kind, fallback_text } && kind@ == "image"@
            && fallback_text@ == seq!['['] + match str_field(source, "media_type"@) {
            Some(m) => m,
            None => "image"@,
        } + seq![']'],
        Piece::Output(name, printed) => output_part_is(p, name, printed),
        Piece::Card(path) => card_part_is(p, path, uploads, mime_of(path), None, canon(path)),
    }
}

/// Whether `after` is `before` with a part for each of `pieces` appended.
pub open spec fn appended(
    before: Seq<Part>,
    after: Seq<Part>,
    pieces: Seq<Piece>,
    uploads: Option<Seq<char>>,
    canon: spec_fn(Seq<char>) -> Seq<char>,
) -> bool {
    &&& after.len() == before.len() + pieces.len()
    &&& after.take(before.len() as int) == before
    &&& forall|i: int| 0 <= i < pieces.len() ==> piece_part_is(#[trigger] after[before.len() + i], pieces[i], uploads, canon)
}

pub open spec fn uploads_view(uploads: Option<&str>) -> Option<Seq<char>> {
    match uploads {
        Some(u) => Some(u@),
        None => None,
    }
}

impl TurnMapper {
    /// A file's card. The asset id is minted from the path's canonical
    /// spelling, the one a file is found again by.
    pub fn file_part(path: &str, mime: Option<String>, size: Option<u64>, uploads: Option<&str>, canonical: &str) -> (p: Part)
        ensures
            card_part_is(p, path@, uploads_view(uploads), text_of(mime), size, canonical@),
    {
        let stored_here = match uploads {
            Some(u) => SentFiles::is_stored_in(path, u),
            None => false,
        };
        let name = if stored_here {
            SentFiles::readable_name(path)
        } else {
            match file_name_of(chars_of(path).as_slice()) {
                Some(n) => string_of(n.as_slice()),
                None => string_of(chars_of(path).as_slice()),
            }
        };
        let fallback_text = match size {
            Some(n) => {
                let mut text = chars_of(name.as_str());
                text.push(' ');
                text.push('(');
                push_decimal(&mut text, n);
                let tail = chars_of(" bytes)");
                let mut i: usize = 0;
                let ghost start = text@;
                while i < tail.len()
                    invariant
                        i <= tail@.len(),
                        text@ == start + tail@.take(i as int),
                    decreases tail@.len() - i,
                {
                    text.push(tail[i]);
                    i = i + 1;
                    proof {
                        assert(tail@.take(i as int) =~= tail@.take(i - 1).push(tail@[i - 1]));
                    }
                }
                proof {
                    reveal_strlit(" (");
                    reveal_strlit(" bytes)");
                    assert(tail@.take(tail@.len() as int) =~= tail@);
                    assert(text@ =~= name@ + " ("@ + decimal_text(n as nat) + " bytes)"@);
                }
                string_of(text.as_slice())
            },
            None => name.clone(),
        };
        let asset = AssetNaming::id_for(canonical);
        Part::File { asset, name, mime, size, fallback_text }
    }
}


proof fn lemma_appended_push(
    before: Seq<Part>,
    after: Seq<Part>,
    pieces: Seq<Piece>,
    uploads: Option<Seq<char>>,
    canon: spec_fn(Seq<char>) -> Seq<char>,
    p: Part,
    piece: Piece,
)
    requires
        appended(before, after, pieces, uploads, canon),
        piece_part_is(p, piece, uploads, canon),
    ensures
        appended(before, after.push(p), pieces.push(piece), uploads, canon),
{
    let a2 = after.push(p);
    let p2 = pieces.push(piece);
    assert(a2.take(before.len() as int) =~= before) by {
        assert(after.take(before.len() as int) == before);
    }
    assert forall|i: int| 0 <= i < p2.len() implies piece_part_is(#[trigger] a2[before.len() + i], p2[i], uploads, canon) by {
        if i < pieces.len() {
            assert(a2[before.len() + i] == after[before.len() + i]);
        }
    }
}

proof fn lemma_appended_chain(
    a: Seq<Part>,
    b: Seq<Part>,
    c: Seq<Part>,
    p1: Seq<Piece>,
    p2: Seq<Piece>,
    uploads: Option<Seq<char>>,
    canon: spec_fn(Seq<char>) -> Seq<char>,
)
    requires
        appended(a, b, p1, uploads, canon),
        appended(b, c, p2, uploads, canon),
    ensures
        appended(a, c, p1 + p2, uploads, canon),
{
    assert(c.take(a.len() as int) =~= a) by {
        assert forall|i: int| 0 <= i < a.len() implies c[i] == a[i] by {
            assert(c.take(b.len() as int)[i] == b[i]);
            assert(b.take(a.len() as int)[i] == a[i]);
        }
    }
    let ps = p1 + p2;
    assert forall|i: int| 0 <= i < ps.len() implies piece_part_is(#[trigger] c[a.len() + i], ps[i], uploads, canon) by {
        if i < p1.len() {
            assert(c.take(b.len() as int)[a.len() + i] == b[a.len() + i]);
            assert(piece_part_is(b[a.len() + i], p1[i], uploads, canon));
        } else {
            assert(piece_part_is(c[b.len() + (i - p1.len())], p2[i - p1.len()], uploads, canon));
        }
    }
}

proof fn lemma_appended_none(parts: Seq<Part>, uploads: Option<Seq<char>>, canon: spec_fn(Seq<char>) -> Seq<char>)
    ensures
        appended(parts, parts, Seq::empty(), uploads, canon),
{
    assert(parts.take(parts.len() as int) =~= parts);
}

impl TurnMapper {
    /// What a person said, then a card for each file this machine stored and
    /// named in it. `canonical` spells each such path the way it is found again.
    pub fn spoken_parts<G: Fn(&str) -> String>(text: &str, uploads: Option<&str>, canonical: &G, parts: &mut Vec<Part>)
        requires
            forall|t: &str| canonical.requires((t,)),
        ensures
            forall|canon: spec_fn(Seq<char>) -> Seq<char>| spells_as(*canonical, canon) ==>
                appended(old(parts)@, final(parts)@, spoken_pieces(text@, uploads_view(uploads)), uploads_view(uploads), canon),
    {
        let ghost before = parts@;
        let ghost up = uploads_view(uploads);
        let u = match uploads {
            None => {
                parts.push(Part::Text { text: string_of(chars_of(text).as_slice()) });
                assert forall|canon: spec_fn(Seq<char>) -> Seq<char>| spells_as(*canonical, canon) implies
                    appended(before, parts@, spoken_pieces(text@, up), up, canon) by {
                    lemma_appended_none(before, up, canon);
                    assert(seq![Piece::Text(text@)] =~= Seq::<Piece>::empty().push(Piece::Text(text@)));
                    lemma_appended_push(before, before, Seq::empty(), up, canon, parts@.last(), Piece::Text(text@));
                    assert(before.push(parts@.last()) =~= parts@);
                }
                return;
            },
            Some(u) => u,
        };
        let (spoken, sent) = SentFiles::split(text, u);
        let ghost split = split_sent(text@, u@);
        let ghost head: Seq<Piece> = if split.0.len() > 0 { seq![Piece::Text(split.0)] } else { Seq::empty() };
        if chars_of(spoken.as_str()).len() > 0 {
            parts.push(Part::Text { text: spoken });
        }
        assert forall|canon: spec_fn(Seq<char>) -> Seq<char>| spells_as(*canonical, canon) implies
            appended(before, parts@, head, up, canon) by {
            lemma_appended_none(before, up, canon);
            if split.0.len() > 0 {
                assert(head =~= Seq::<Piece>::empty().push(Piece::Text(split.0)));
                lemma_appended_push(before, before, Seq::empty(), up, canon, parts@.last(), Piece::Text(split.0));
                assert(before.push(parts@.last()) =~= parts@);
            }
        }
        let mut k: usize = 0;
        while k < sent.len()
            invariant
                k <= sent@.len(),
                forall|t: &str| canonical.requires((t,)),
                up == Some(u@),
                uploads_view(uploads) == up,
                crate::text::strs(sent@) == split.1,
                forall|canon: spec_fn(Seq<char>) -> Seq<char>| spells_as(*canonical, canon) ==>
                    appended(before, parts@, head + split.1.take(k as int).map_values(|p: Seq<char>| Piece::Card(p)), up, canon),
            decreases sent@.len() - k,
        {
            let path = sent[k].as_str();
            let c = canonical(path);
            let mime = AssetNaming::mime_for(path);
            assert(text_of(mime) == mime_of(path@));
            let part = Self::file_part(path, mime, None, uploads, c.as_str());
            assert(card_part_is(part, path@, up, mime_of(path@), None, c@));
            let ghost was = parts@;
            parts.push(part);
            proof {
                assert(split.1[k as int] == path@);
                let cards_k = split.1.take(k as int).map_values(|p: Seq<char>| Piece::Card(p));
                let cards_k1 = split.1.take(k + 1).map_values(|p: Seq<char>| Piece::Card(p));
                assert(cards_k1 =~= cards_k.push(Piece::Card(path@)));
                assert(head + cards_k1 =~= (head + cards_k).push(Piece::Card(path@)));
                assert forall|canon: spec_fn(Seq<char>) -> Seq<char>| spells_as(*canonical, canon) implies
                    appended(before, parts@, head + cards_k1, up, canon) by {
                    assert(canonical.ensures((path,), c));
                    assert(c@ == canon(path@));
                    assert(piece_part_is(part, Piece::Card(path@), up, canon));
                    lemma_appended_push(before, was, head + cards_k, up, canon, part, Piece::Card(path@));
                }
            }
            k = k + 1;
        }
        proof {
            assert(split.1.take(sent@.len() as int) =~= split.1);
        }
    }

    fn block_parts<F: Fn(&str) -> bool, G: Fn(&str) -> String>(
        blocks: &[ContentBlock],
        is_noise: &F,
        uploads: Option<&str>,
        canonical: &G,
        parts: &mut Vec<Part>,
    )
        requires
            forall|t: &str| is_noise.requires((t,)),
        ensures
            forall|noise: spec_fn(Seq<char>) -> bool, canon: spec_fn(Seq<char>) -> Seq<char>|
                judges_as(*is_noise, noise) && spells_as(*canonical, canon) ==>
                appended(old(parts)@, final(parts)@, block_pieces(blocks@, noise), uploads_view(uploads), canon),
    {
        let ghost before = parts@;
        let ghost up = uploads_view(uploads);
        let mut i: usize = 0;
        proof {
            assert forall|noise: spec_fn(Seq<char>) -> bool, canon: spec_fn(Seq<char>) -> Seq<char>|
                judges_as(*is_noise, noise) && spells_as(*canonical, canon) implies
                appended(before, parts@, block_pieces(blocks@.take(0), noise), up, canon) by {
                assert(blocks@.take(0) =~= Seq::<ContentBlock>::empty());
                lemma_appended_none(before, up, canon);
            }
        }
        while i < blocks.len()
            invariant
                i <= blocks@.len(),
                forall|t: &str| is_noise.requires((t,)),
                up == uploads_view(uploads),
                forall|noise: spec_fn(Seq<char>) -> bool, canon: spec_fn(Seq<char>) -> Seq<char>|
                    judges_as(*is_noise, noise) && spells_as(*canonical, canon) ==>
                    appended(before, parts@, block_pieces(blocks@.take(i as int), noise), up, canon),
            decreases blocks@.len() - i,
        {
            let ghost was = parts@;
            proof {
                assert(blocks@.take(i + 1).drop_last() =~= blocks@.take(i as int));
                assert(blocks@.take(i + 1).last() == blocks@[i as int]);
            }
            match &blocks[i] {
                ContentBlock::Text { text } => {
                    let t = text.as_str();
                    let v = is_noise(t);
                    if !v {
                        parts.push(Part::Text { text: text.clone() });
                    }
                    proof {
                        assert forall|noise: spec_fn(Seq<char>) -> bool, canon: spec_fn(Seq<char>) -> Seq<char>|
                            judges_as(*is_noise, noise) && spells_as(*canonical, canon) implies
                            appended(before, parts@, block_pieces(blocks@.take(i + 1), noise), up, canon) by {
                            assert(is_noise.ensures((t,), v));
                            assert(v == noise(text@));
                            assert(blocks@.take(i + 1).last() == ContentBlock::Text { text: *text });
                            assert(appended(before, was, block_pieces(blocks@.take(i as int), noise), up, canon));
                            if !v {
                                assert(block_pieces(blocks@.take(i + 1), noise) == block_pieces(blocks@.take(i as int), noise).push(Piece::Text(text@)));
                                lemma_appended_push(before, was, block_pieces(blocks@.take(i as int), noise), up, canon,
                                    parts@.last(), Piece::Text(text@));
                                assert(was.push(parts@.last()) =~= parts@);
                            }
                        }
                    }
                },
                ContentBlock::Image { source } => {
                    parts.push(Self::image_part(source));
                    proof {
                        assert forall|noise: spec_fn(Seq<char>) -> bool, canon: spec_fn(Seq<char>) -> Seq<char>|
                            judges_as(*is_noise, noise) && spells_as(*canonical, canon) implies
                            appended(before, parts@, block_pieces(blocks@.take(i + 1), noise), up, canon) by {
                            lemma_appended_push(before, was, block_pieces(blocks@.take(i as int), noise), up, canon,
                                parts@.last(), Piece::Image(*source));
                            assert(was.push(parts@.last()) =~= parts@);
                        }
                    }
                },
                _ => {
                    proof {
                        assert forall|noise: spec_fn(Seq<char>) -> bool, canon: spec_fn(Seq<char>) -> Seq<char>|
                            judges_as(*is_noise, noise) && spells_as(*canonical, canon) implies
                            appended(before, parts@, block_pieces(blocks@.take(i + 1), noise), up, canon) by {
                            assert(appended(before, was, block_pieces(blocks@.take(i as int), noise), up, canon));
                        }
                    }
                },
            }
            i = i + 1;
        }
        proof {
            assert(blocks@.take(blocks@.len() as int) =~= blocks@);
        }
    }

    /// The parts a record in the person's role shows as, appended to `parts`.
    /// `is_noise` is the agent's table of what the harness writes in the
    /// person's role; `canonical` spells a sent file's path the way it is found
    /// again.
    pub fn operator_parts<F: Fn(&str) -> bool, G: Fn(&str) -> String>(
        tags: Option<&CommandTags>,
        uploads: Option<&str>,
        record: &Record,
        is_noise: &F,
        canonical: &G,
        parts: &mut Vec<Part>,
    )
        requires
            forall|t: &str| is_noise.requires((t,)),
            forall|t: &str| canonical.requires((t,)),
        ensures
            forall|noise: spec_fn(Seq<char>) -> bool, canon: spec_fn(Seq<char>) -> Seq<char>|
                judges_as(*is_noise, noise) && spells_as(*canonical, canon) ==>
                appended(
                    old(parts)@,
                    final(parts)@,
                    operator_pieces(tags_view(tags), uploads_view(uploads), *record, noise),
                    uploads_view(uploads),
                    canon,
                ),
    {
        let ghost before = parts@;
        let ghost up = uploads_view(uploads);
        let ghost tv = tags_view(tags);
        if record.is_local_command(tags) {
            let t = match tags {
                Some(t) => t,
                None => {
                    proof {
                        assert forall|noise: spec_fn(Seq<char>) -> bool, canon: spec_fn(Seq<char>) -> Seq<char>|
                            judges_as(*is_noise, noise) && spells_as(*canonical, canon) implies
                            appended(before, parts@, operator_pieces(tv, up, *record, noise), up, canon) by {
                            lemma_appended_none(before, up, canon);
                        }
                    }
                    return;
                },
            };
            let spoken = match &record.content {
                Some(text) => SlashCommand::spoken(t, text.as_str()),
                None => None,
            };
            match spoken {
                Some(s) => {
                    let ghost sv = s@;
                    parts.push(Part::Text { text: s });
                    proof {
                        assert forall|noise: spec_fn(Seq<char>) -> bool, canon: spec_fn(Seq<char>) -> Seq<char>|
                            judges_as(*is_noise, noise) && spells_as(*canonical, canon) implies
                            appended(before, parts@, operator_pieces(tv, up, *record, noise), up, canon) by {
                            lemma_appended_none(before, up, canon);
                            assert(seq![Piece::Text(sv)] =~= Seq::<Piece>::empty().push(Piece::Text(sv)));
                            lemma_appended_push(before, before, Seq::empty(), up, canon, parts@.last(), Piece::Text(sv));
                            assert(before.push(parts@.last()) =~= parts@);
                        }
                    }
                },
                None => {
                    proof {
                        assert forall|noise: spec_fn(Seq<char>) -> bool, canon: spec_fn(Seq<char>) -> Seq<char>|
                            judges_as(*is_noise, noise) && spells_as(*canonical, canon) implies
                            appended(before, parts@, operator_pieces(tv, up, *record, noise), up, canon) by {
                            lemma_appended_none(before, up, canon);
                        }
                    }
                },
            }
            return;
        }
        let interrupted = record.interrupted();
        if interrupted {
            parts.push(Self::status_part("Interrupted"));
        }
        let ghost head: Seq<Piece> = if interrupted { seq![Piece::Status(interrupted_label())] } else { Seq::empty() };
        let ghost mid = parts@;
        proof {
            reveal_strlit("Interrupted");
            assert forall|canon: spec_fn(Seq<char>) -> Seq<char>| #[trigger] spells_as(*canonical, canon) implies
                appended(before, mid, head, up, canon) by {
                lemma_appended_none(before, up, canon);
                if interrupted {
                    assert(head =~= Seq::<Piece>::empty().push(Piece::Status(interrupted_label())));
                    lemma_appended_push(before, before, Seq::empty(), up, canon, mid.last(), Piece::Status(interrupted_label()));
                    assert(before.push(mid.last()) =~= mid);
                }
            }
        }
        match record.queued_text() {
            Some(queued) => {
                let q = queued.as_str();
                let v = is_noise(q);
                if !v {
                    Self::spoken_parts(q, uploads, canonical, parts);
                }
                proof {
                    assert forall|noise: spec_fn(Seq<char>) -> bool, canon: spec_fn(Seq<char>) -> Seq<char>|
                        judges_as(*is_noise, noise) && spells_as(*canonical, canon) implies
                        appended(before, parts@, operator_pieces(tv, up, *record, noise), up, canon) by {
                        assert(is_noise.ensures((q,), v));
                        assert(spells_as(*canonical, canon));
                        if v {
                            lemma_appended_none(mid, up, canon);
                            lemma_appended_chain(before, mid, parts@, head, Seq::empty(), up, canon);
                            assert(head + Seq::<Piece>::empty() =~= head);
                        } else {
                            lemma_appended_chain(before, mid, parts@, head, spoken_pieces(q@, up), up, canon);
                        }
                    }
                }
                return;
            },
            None => {},
        }
        match record.plain_text() {
            Some(text) => {
                let is_command = match tags {
                    Some(t) => SlashCommand::is_command(t, text),
                    None => false,
                };
                if is_command {
                    let t = tags.unwrap();
                    Self::command_parts(t, text, parts);
                    proof {
                        let cp = command_pieces(*t, text@);
                        assert forall|canon: spec_fn(Seq<char>) -> Seq<char>| #[trigger] spells_as(*canonical, canon) implies
                            appended(mid, parts@, cp, up, canon) by {
                            assert(parts@.take(mid.len() as int) == mid);
                        }
                        assert forall|noise: spec_fn(Seq<char>) -> bool, canon: spec_fn(Seq<char>) -> Seq<char>|
                            judges_as(*is_noise, noise) && spells_as(*canonical, canon) implies
                            appended(before, parts@, operator_pieces(tv, up, *record, noise), up, canon) by {
                            assert(spells_as(*canonical, canon));
                            lemma_appended_chain(before, mid, parts@, head, cp, up, canon);
                        }
                    }
                    return;
                }
                let v = is_noise(text);
                if !v {
                    Self::spoken_parts(text, uploads, canonical, parts);
                }
                proof {
                    assert forall|noise: spec_fn(Seq<char>) -> bool, canon: spec_fn(Seq<char>) -> Seq<char>|
                        judges_as(*is_noise, noise) && spells_as(*canonical, canon) implies
                        appended(before, parts@, operator_pieces(tv, up, *record, noise), up, canon) by {
                        assert(is_noise.ensures((text,), v));
                        assert(spells_as(*canonical, canon));
                        if v {
                            lemma_appended_none(mid, up, canon);
                            lemma_appended_chain(before, mid, parts@, head, Seq::empty(), up, canon);
                            assert(head + Seq::<Piece>::empty() =~= head);
                        } else {
                            lemma_appended_chain(before, mid, parts@, head, spoken_pieces(text@, up), up, canon);
                        }
                    }
                }
            },
            None => {
                Self::block_parts(record.blocks(), is_noise, uploads, canonical, parts);
                proof {
                    assert forall|noise: spec_fn(Seq<char>) -> bool, canon: spec_fn(Seq<char>) -> Seq<char>|
                        judges_as(*is_noise, noise) && spells_as(*canonical, canon) implies
                        appended(before, parts@, operator_pieces(tv, up, *record, noise), up, canon) by {
                        assert(spells_as(*canonical, canon));
                        lemma_appended_chain(before, mid, parts@, head, block_pieces(record_blocks(*record), noise), up, canon);
                    }
                }
            },
        }
    }
}

} // verus!
