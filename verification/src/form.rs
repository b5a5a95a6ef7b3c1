//! The setup form: the page that shows the settings, and what comes back.
use crate::settings::{Field, Settings, FIELD_ORDER};
use crate::text::{chars_of, same_text, utf8_text};
use vstd::prelude::*;
use vstd::slice::slice_subrange;
use vstd::utf8::*;

verus! {

// ---------- Escaping ----------
/// How one character stands in a page.
pub open spec fn escape(c: char) -> Seq<char> {
    if c == '&' {
        "&amp;"@
    } else if c == '<' {
        "&lt;"@
    } else if c == '>' {
        "&gt;"@
    } else if c == '"' {
        "&quot;"@
    } else {
        seq![c]
    }
}

/// How a text stands in a page.
pub open spec fn escaped(s: Seq<char>) -> Seq<char>
    decreases s.len(),
{
    if s.len() == 0 {
        Seq::empty()
    } else {
        escaped(s.drop_last()) + escape(s.last())
    }
}

/// Appends `s`, as it stands in a page, to `out`.
pub fn push_escaped(out: &mut String, s: &str)
    ensures
        final(out)@ == old(out)@ + escaped(s@),
{
    let chars = chars_of(s);
    let mut i: usize = 0;
    assert(out@ =~= old(out)@ + escaped(s@.take(0)));
    while i < chars.len()
        invariant
            chars@ == s@,
            i <= chars@.len(),
            out@ == old(out)@ + escaped(s@.take(i as int)),
        decreases chars@.len() - i,
    {
        let c = chars[i];
        assert(s@.take(i + 1).drop_last() =~= s@.take(i as int));
        if c == '&' {
            out.append("&amp;");
        } else if c == '<' {
            out.append("&lt;");
        } else if c == '>' {
            out.append("&gt;");
        } else if c == '"' {
            out.append("&quot;");
        } else {
            out.push(c);
        }
        i += 1;
        assert(out@ =~= old(out)@ + escaped(s@.take(i as int)));
    }
    assert(s@.take(s@.len() as int) =~= s@);
}

/// No value can break out of where it stands in the page: what is escaped holds
/// no angle bracket and no quote.
pub proof fn escaped_text_is_harmless(s: Seq<char>)
    ensures
        forall|i: int|
            0 <= i < escaped(s).len() ==> #[trigger] escaped(s)[i] != '<' && escaped(s)[i] != '>'
                && escaped(s)[i] != '"',
    decreases s.len(),
{
    if s.len() > 0 {
        reveal_strlit("&amp;");
        reveal_strlit("&lt;");
        reveal_strlit("&gt;");
        reveal_strlit("&quot;");
        escaped_text_is_harmless(s.drop_last());
        let before = escaped(s.drop_last());
        let more = escape(s.last());
        assert forall|i: int| 0 <= i < escaped(s).len() implies #[trigger] escaped(s)[i] != '<'
            && escaped(s)[i] != '>' && escaped(s)[i] != '"' by {
            if i < before.len() {
                assert(escaped(s)[i] == before[i]);
            } else {
                assert(escaped(s)[i] == more[i - before.len()]);
            }
        }
    }
}

// ---------- Pages ----------
/// The page up to the fields.
pub const FORM_HEAD: &'static str = "<!DOCTYPE html><html><head><meta charset=utf-8>\
         <meta name=viewport content=\"width=device-width,initial-scale=1\">\
         <title>Voicebox Setup</title><style>\
         body{font-family:-apple-system,system-ui,sans-serif;background:#111;color:#eee;\
         margin:0;padding:20px;max-width:520px}\
         h1{font-size:20px;margin:0 0 4px}p.sub{color:#888;font-size:13px;margin:0 0 20px}\
         label{display:block;margin:14px 0 4px;font-size:13px;color:#bbb}\
         input{width:100%;box-sizing:border-box;padding:10px;font-size:16px;\
         border:1px solid #333;border-radius:8px;background:#1c1c1c;color:#eee}\
         button{width:100%;margin-top:24px;padding:14px;font-size:16px;font-weight:600;\
         border:0;border-radius:8px;background:#2d7;color:#062}\
         </style></head><body><h1>Voicebox Setup</h1>\
         <p class=sub>Saving restarts the device.</p>\
         <form method=POST action=/save>";

/// The page behind the fields.
pub const FORM_TAIL: &'static str =
    "<button type=submit>Save &amp; Restart</button></form></body></html>";

/// The page after saving.
pub const SAVED_PAGE: &'static str = "<!DOCTYPE html><html><head><meta charset=utf-8>\
         <meta name=viewport content=\"width=device-width,initial-scale=1\">\
         <title>Saved</title><style>body{font-family:-apple-system,system-ui,sans-serif;\
         background:#111;color:#eee;margin:0;padding:40px 20px;text-align:center}\
         h1{font-size:22px}p{color:#888}</style></head><body>\
         <h1>Saved</h1><p>The device is restarting and will join your network. \
         This page will stop responding.</p></body></html>";

/// How the input of a field takes its value: a secret is never echoed, and its
/// hint says whether there is one; anything else is prefilled.
pub open spec fn input_of(f: Field, value: Seq<char>) -> Seq<char> {
    if f.secret() {
        " type=password autocomplete=off placeholder=\""@ + escaped(
            if value.len() == 0 {
                f.hint_text()
            } else {
                "unchanged"@
            },
        ) + "\""@
    } else {
        (if f.base_url() {
            " type=url inputmode=url"@
        } else {
            " type=text"@
        }) + " autocapitalize=off autocorrect=off placeholder=\""@ + escaped(f.hint_text())
            + "\" value=\""@ + escaped(value) + "\""@
    }
}

/// A field of the form.
pub open spec fn field_html(f: Field, value: Seq<char>) -> Seq<char> {
    "<label for="@ + f.key_text() + ">"@ + escaped(f.label_text()) + "</label><input id="@
        + f.key_text() + " name="@ + f.key_text() + input_of(f, value) + ">"@
}

/// The first `n` fields of the form.
pub open spec fn fields_html(settings: Settings, n: nat) -> Seq<char>
    decreases n,
{
    if n == 0 {
        Seq::empty()
    } else {
        fields_html(settings, (n - 1) as nat) + field_html(
            Field::at(n - 1),
            settings.text(Field::at(n - 1)),
        )
    }
}

/// The form.
pub open spec fn form_html(settings: Settings) -> Seq<char> {
    FORM_HEAD@ + fields_html(settings, 9) + FORM_TAIL@
}

/// Appends the input of a field.
fn push_input(html: &mut String, field: Field, value: &str)
    ensures
        final(html)@ == old(html)@ + input_of(field, value@),
{
    if field.is_secret() {
        html.append(" type=password autocomplete=off placeholder=\"");
        push_escaped(
            html,
            if value.is_empty() {
                field.hint()
            } else {
                "unchanged"
            },
        );
        html.append("\"");
    } else {
        html.append(
            if field.is_base_url() {
                " type=url inputmode=url"
            } else {
                " type=text"
            },
        );
        html.append(" autocapitalize=off autocorrect=off placeholder=\"");
        push_escaped(html, field.hint());
        html.append("\" value=\"");
        push_escaped(html, value);
        html.append("\"");
    }
    assert(html@ =~= old(html)@ + input_of(field, value@));
}

/// A field of the form.
fn field_input(field: Field, value: &str) -> (html: String)
    ensures
        html@ == field_html(field, value@),
{
    let mut html = "<label for=".to_owned();
    html.append(field.key());
    html.append(">");
    push_escaped(&mut html, field.label());
    html.append("</label><input id=");
    html.append(field.key());
    html.append(" name=");
    html.append(field.key());
    push_input(&mut html, field, value);
    html.append(">");
    html
}

/// The form, with what is set already. Secrets are not among it.
pub fn form_page(current: &Settings) -> (html: String)
    ensures
        html@ == form_html(*current),
{
    let mut html = FORM_HEAD.to_owned();
    let mut i: usize = 0;
    assert(html@ =~= FORM_HEAD@ + fields_html(*current, 0));
    while i < 9
        invariant
            i <= 9,
            html@ == FORM_HEAD@ + fields_html(*current, i as nat),
        decreases 9 - i,
    {
        let field = FIELD_ORDER[i];
        html.append(&field_input(field, current.get(field)));
        i += 1;
        assert(html@ =~= FORM_HEAD@ + fields_html(*current, i as nat));
    }
    html.append(FORM_TAIL);
    html
}

/// The page after saving.
pub fn saved_page() -> (html: String)
    ensures
        html@ == SAVED_PAGE@,
{
    SAVED_PAGE.to_owned()
}

/// Whether two devices are set up alike, but for what their secrets are.
pub open spec fn alike_but_for_secrets(a: Settings, b: Settings) -> bool {
    forall|f: Field|
        if f.secret() {
            a.text(f).len() == 0 <==> b.text(f).len() == 0
        } else {
            #[trigger] a.text(f) == b.text(f)
        }
}

/// The form tells nothing of a secret but whether it is set: devices that differ
/// only in what their secrets are serve the same page.
pub proof fn form_keeps_secrets(a: Settings, b: Settings)
    requires
        alike_but_for_secrets(a, b),
    ensures
        form_html(a) == form_html(b),
{
    lemma_fields_keep_secrets(a, b, 9);
}

proof fn lemma_fields_keep_secrets(a: Settings, b: Settings, n: nat)
    requires
        alike_but_for_secrets(a, b),
        n <= 9,
    ensures
        fields_html(a, n) == fields_html(b, n),
    decreases n,
{
    if n > 0 {
        lemma_fields_keep_secrets(a, b, (n - 1) as nat);
        let f = Field::at(n - 1);
        assert(a.text(f) == a.text(f));
        assert(field_html(f, a.text(f)) == field_html(f, b.text(f)));
    }
}

// ---------- Decoding what comes back ----------
/// The value of a hexadecimal digit.
pub open spec fn hex_value(b: u8) -> Option<u8> {
    if 0x30 <= b <= 0x39 {
        Some((b - 0x30) as u8)
    } else if 0x61 <= b <= 0x66 {
        Some((b - 0x61 + 10) as u8)
    } else if 0x41 <= b <= 0x46 {
        Some((b - 0x41 + 10) as u8)
    } else {
        None
    }
}

/// The value of a hexadecimal digit.
pub fn hex(b: u8) -> (r: Option<u8>)
    ensures
        r == hex_value(b),
        r matches Some(d) ==> d < 16,
{
    if 0x30 <= b && b <= 0x39 {
        Some(b - 0x30)
    } else if 0x61 <= b && b <= 0x66 {
        Some(b - 0x61 + 10)
    } else if 0x41 <= b && b <= 0x46 {
        Some(b - 0x41 + 10)
    } else {
        None
    }
}

/// Whether a percent escape stands at the front.
pub open spec fn is_escape(raw: Seq<u8>) -> bool {
    raw.len() > 2 && raw[0] == 0x25 && hex_value(raw[1]) is Some && hex_value(raw[2]) is Some
}

/// The bytes that a form value stands for: a plus is a space, an escape is the
/// byte it names, and everything else is itself, a percent sign without two
/// digits behind it too.
pub open spec fn decoded_bytes(raw: Seq<u8>) -> Seq<u8>
    decreases raw.len(),
{
    if raw.len() == 0 {
        Seq::empty()
    } else if is_escape(raw) {
        seq![(hex_value(raw[1])->0 * 16 + hex_value(raw[2])->0) as u8] + decoded_bytes(raw.skip(3))
    } else {
        seq![if raw[0] == 0x2B { 0x20u8 } else { raw[0] }] + decoded_bytes(raw.skip(1))
    }
}

/// The text that a form value stands for; none if it is no text.
pub open spec fn decoded_text(raw: Seq<u8>) -> Seq<char> {
    if valid_utf8(decoded_bytes(raw)) {
        decode_utf8(decoded_bytes(raw))
    } else {
        Seq::empty()
    }
}

/// The text that a form value stands for; none if it is no text.
pub fn urldecode(raw: &[u8]) -> (s: String)
    ensures
        s@ == decoded_text(raw@),
{
    let total: usize = raw.len();
    let mut bytes: Vec<u8> = Vec::new();
    let mut i: usize = 0;
    assert(raw@.skip(0) =~= raw@);
    assert(bytes@ + decoded_bytes(raw@) =~= decoded_bytes(raw@));
    while i < total
        invariant
            i <= total == raw@.len(),
            bytes@ + decoded_bytes(raw@.skip(i as int)) == decoded_bytes(raw@),
        decreases total - i,
    {
        let ghost rest = raw@.skip(i as int);
        let ghost before = bytes@;
        if raw[i] == 0x25 && total - i > 2 {
            match (hex(raw[i + 1]), hex(raw[i + 2])) {
                (Some(h), Some(l)) => {
                    bytes.push(h * 16 + l);
                    assert(rest.skip(3) =~= raw@.skip(i + 3));
                    assert(bytes@ + decoded_bytes(raw@.skip(i + 3)) =~= before + decoded_bytes(
                        rest,
                    ));
                    i += 3;
                },
                _ => {
                    bytes.push(0x25);
                    assert(rest.skip(1) =~= raw@.skip(i + 1));
                    assert(bytes@ + decoded_bytes(raw@.skip(i + 1)) =~= before + decoded_bytes(
                        rest,
                    ));
                    i += 1;
                },
            }
        } else {
            bytes.push(
                if raw[i] == 0x2B {
                    0x20
                } else {
                    raw[i]
                },
            );
            assert(rest.skip(1) =~= raw@.skip(i + 1));
            assert(bytes@ + decoded_bytes(raw@.skip(i + 1)) =~= before + decoded_bytes(rest));
            i += 1;
        }
    }
    assert(bytes@ =~= decoded_bytes(raw@));
    match utf8_text(&bytes) {
        Some(s) => s,
        None => String::new(),
    }
}

/// The pieces of a byte string between separators.
pub open spec fn pieces(s: Seq<u8>, separator: u8) -> Seq<Seq<u8>>
    decreases s.len(),
{
    if s.len() == 0 {
        seq![Seq::empty()]
    } else {
        let before = pieces(s.drop_last(), separator);
        if s.last() == separator {
            before.push(Seq::empty())
        } else {
            before.drop_last().push(before.last().push(s.last()))
        }
    }
}

/// The first place of a byte, or the length.
pub open spec fn first_place(s: Seq<u8>, b: u8) -> int
    decreases s.len(),
{
    if s.len() == 0 || s[0] == b {
        0
    } else {
        1 + first_place(s.skip(1), b)
    }
}

/// The field that a form key names.
pub open spec fn named(key: Seq<char>) -> Option<Field> {
    if exists|f: Field| f.key_text() == key {
        Some(choose|f: Field| f.key_text() == key)
    } else {
        None
    }
}

/// What a field is set to by a value.
pub open spec fn stored(f: Field, value: Seq<char>) -> Seq<char> {
    if f.base_url() {
        crate::settings::clean_base_url(value)
    } else {
        value
    }
}

/// The fields with one piece of a form body taken in. A piece without an equals
/// sign, one that names no field, and an empty secret change nothing.
pub open spec fn with_piece(texts: Seq<Seq<char>>, piece: Seq<u8>) -> Seq<Seq<char>> {
    let eq = first_place(piece, 0x3D);
    if eq == piece.len() {
        texts
    } else {
        let value = decoded_text(piece.skip(eq + 1));
        match named(decoded_text(piece.take(eq))) {
            None => texts,
            Some(f) => if value.len() == 0 && f.secret() {
                texts
            } else {
                texts.update(f.place(), stored(f, value))
            },
        }
    }
}

/// The fields with pieces of a form body taken in, in order.
pub open spec fn with_pieces(texts: Seq<Seq<char>>, ps: Seq<Seq<u8>>) -> Seq<Seq<char>>
    decreases ps.len(),
{
    if ps.len() == 0 {
        texts
    } else {
        with_piece(with_pieces(texts, ps.drop_last()), ps.last())
    }
}

/// The field that a form key names.
fn field_named(key: &str) -> (r: Option<Field>)
    ensures
        r == named(key@),
{
    let mut i: usize = 0;
    while i < 9
        invariant
            i <= 9,
            forall|j: int| 0 <= j < i ==> (#[trigger] Field::at(j)).key_text() != key@,
        decreases 9 - i,
    {
        let f = FIELD_ORDER[i];
        if same_text(f.key(), key) {
            proof {
                let g = choose|g: Field| g.key_text() == key@;
                assert(f.key_text() == key@);
                crate::settings::keys_are_distinct(f, g);
            }
            return Some(f);
        }
        i += 1;
    }
    proof {
        assert forall|f: Field| f.key_text() != key@ by {
            crate::settings::field_order_is_complete(f, 0);
            assert(Field::at(f.place()) == f);
        }
    }
    None
}

/// Takes in one piece of a form body.
fn apply_piece(settings: &mut Settings, piece: &[u8])
    ensures
        final(settings).texts() == with_piece(old(settings).texts(), piece@),
        final(settings).volume == old(settings).volume,
{
    let total: usize = piece.len();
    let mut eq: usize = 0;
    assert(piece@.skip(0) =~= piece@);
    while eq < total && piece[eq] != 0x3D
        invariant
            eq <= total == piece@.len(),
            first_place(piece@, 0x3D) == eq + first_place(piece@.skip(eq as int), 0x3D),
        decreases total - eq,
    {
        assert(piece@.skip(eq as int).skip(1) =~= piece@.skip(eq + 1));
        eq += 1;
    }
    if eq == total {
        return ;
    }
    let key = urldecode(slice_subrange(piece, 0, eq));
    let value = urldecode(slice_subrange(piece, eq + 1, total));
    assert(piece@.subrange(0, eq as int) =~= piece@.take(eq as int));
    assert(piece@.subrange(eq + 1, total as int) =~= piece@.skip(eq + 1));
    let field = match field_named(&key) {
        Some(f) => f,
        None => {
            return ;
        },
    };
    if value.as_str().is_empty() && field.is_secret() {
        return ;
    }
    let ghost before = settings.texts();
    settings.set(field, value);
    proof {
        crate::settings::field_order_is_complete(field, 0);
        assert forall|i: int| 0 <= i < 9 implies settings.texts()[i] == before.update(
            field.place(),
            stored(field, value@),
        )[i] by {
            crate::settings::field_order_is_complete(Field::at(i), i);
            let g = Field::at(i);
            if g != field {
                assert(settings.text(g) == old(settings).text(g));
            }
        }
        assert(settings.texts() =~= before.update(field.place(), stored(field, value@)));
    }
}

/// Folds a form body onto a copy of the current settings. A field that is
/// absent, or empty and secret, keeps its value, and so does the volume.
pub fn apply_form(current: &Settings, body: &[u8]) -> (out: Settings)
    ensures
        out.texts() == with_pieces(current.texts(), pieces(body@, 0x26)),
        out.volume == current.volume,
{
    let mut out = current.clone();
    let total: usize = body.len();
    let mut start: usize = 0;
    let mut i: usize = 0;
    let ghost mut done = Seq::<Seq<u8>>::empty();
    assert(body@.subrange(0, 0) =~= Seq::<u8>::empty());
    assert(pieces(body@.take(0), 0x26) =~= done.push(body@.subrange(0, 0)));
    while i < total
        invariant
            start <= i <= total == body@.len(),
            pieces(body@.take(i as int), 0x26) == done.push(
                body@.subrange(start as int, i as int),
            ),
            out.texts() == with_pieces(current.texts(), done),
            out.volume == current.volume,
        decreases total - i,
    {
        let ghost piece = body@.subrange(start as int, i as int);
        assert(body@.take(i + 1).drop_last() =~= body@.take(i as int));
        if body[i] == 0x26 {
            apply_piece(&mut out, slice_subrange(body, start, i));
            proof {
                assert(done.push(piece).drop_last() =~= done);
                done = done.push(piece);
            }
            start = i + 1;
            assert(body@.subrange(start as int, i + 1) =~= Seq::<u8>::empty());
        } else {
            assert(done.push(piece).drop_last() =~= done);
            assert(piece.push(body@[i as int]) =~= body@.subrange(start as int, i + 1));
        }
        i += 1;
    }
    assert(body@.take(total as int) =~= body@);
    apply_piece(&mut out, slice_subrange(body, start, total));
    proof {
        let piece = body@.subrange(start as int, total as int);
        assert(done.push(piece).drop_last() =~= done);
    }
    out
}

// ---------- What a form leaves alone, and what it carries ----------
/// Whether a piece of a form body sets a field.
pub open spec fn sets(piece: Seq<u8>, f: Field) -> bool {
    let eq = first_place(piece, 0x3D);
    &&& eq < piece.len()
    &&& named(decoded_text(piece.take(eq))) == Some(f)
    &&& decoded_text(piece.skip(eq + 1)).len() > 0 || !f.secret()
}

/// A field that no piece of a body sets keeps its value. So a secret survives a
/// form whose box for it was left blank.
pub proof fn unset_fields_are_kept(texts: Seq<Seq<char>>, ps: Seq<Seq<u8>>, f: Field)
    requires
        texts.len() == 9,
        forall|i: int| 0 <= i < ps.len() ==> !sets(#[trigger] ps[i], f),
    ensures
        with_pieces(texts, ps)[f.place()] == texts[f.place()],
        with_pieces(texts, ps).len() == 9,
    decreases ps.len(),
{
    if ps.len() > 0 {
        let before = ps.drop_last();
        assert forall|i: int| 0 <= i < before.len() implies !sets(#[trigger] before[i], f) by {
            assert(before[i] == ps[i]);
        }
        unset_fields_are_kept(texts, before, f);
        assert(!sets(ps[ps.len() - 1], f));
        let piece = ps.last();
        let eq = first_place(piece, 0x3D);
        lemma_first_place(piece, 0x3D);
        match named(decoded_text(piece.take(eq))) {
            Some(g) => {
                crate::settings::field_order_is_complete(f, 0);
                crate::settings::field_order_is_complete(g, 0);
            },
            None => {},
        }
    }
}

proof fn lemma_first_place(s: Seq<u8>, b: u8)
    ensures
        0 <= first_place(s, b) <= s.len(),
        first_place(s, b) < s.len() ==> s[first_place(s, b)] == b,
        forall|i: int| 0 <= i < first_place(s, b) ==> s[i] != b,
    decreases s.len(),
{
    if s.len() > 0 && s[0] != b {
        lemma_first_place(s.skip(1), b);
        let p = first_place(s.skip(1), b);
        assert forall|i: int| 0 <= i < 1 + p implies s[i] != b by {
            if i > 0 {
                assert(s.skip(1)[i - 1] == s[i]);
            }
        }
        if p < s.skip(1).len() {
            assert(s.skip(1)[p] == s[p + 1]);
        }
    }
}

/// Whether a browser sends a byte as it is.
pub open spec fn is_plain(b: u8) -> bool {
    ||| 0x30 <= b <= 0x39
    ||| 0x41 <= b <= 0x5A
    ||| 0x61 <= b <= 0x7A
    ||| b == 0x2D
    ||| b == 0x2E
    ||| b == 0x5F
    ||| b == 0x2A
}

/// A hexadecimal digit.
pub open spec fn hex_digit(d: int) -> u8 {
    (if d < 10 {
        0x30 + d
    } else {
        0x41 + d - 10
    }) as u8
}

/// How a browser sends a byte.
pub open spec fn sent_byte(b: u8) -> Seq<u8> {
    if is_plain(b) {
        seq![b]
    } else if b == 0x20 {
        seq![0x2Bu8]
    } else {
        seq![0x25u8, hex_digit(b as int / 16), hex_digit(b as int % 16)]
    }
}

/// How a browser sends the value of a form field.
pub open spec fn sent_bytes(bytes: Seq<u8>) -> Seq<u8>
    decreases bytes.len(),
{
    if bytes.len() == 0 {
        Seq::empty()
    } else {
        sent_byte(bytes[0]) + sent_bytes(bytes.skip(1))
    }
}

/// Whether `raw` is a form encoding of `bytes`: each byte stands for itself,
/// unless it is a percent sign or a plus, or as an escape in digits of any case,
/// and a space as a plus too.
pub open spec fn encodes(raw: Seq<u8>, bytes: Seq<u8>) -> bool
    decreases bytes.len(),
{
    if bytes.len() == 0 {
        raw.len() == 0
    } else {
        let b = bytes[0];
        ||| raw.len() > 0 && raw[0] == b && b != 0x25 && b != 0x2B && encodes(
            raw.skip(1),
            bytes.skip(1),
        )
        ||| raw.len() > 0 && raw[0] == 0x2B && b == 0x20 && encodes(raw.skip(1), bytes.skip(1))
        ||| is_escape(raw) && hex_value(raw[1])->0 * 16 + hex_value(raw[2])->0 == b && encodes(
            raw.skip(3),
            bytes.skip(1),
        )
    }
}

/// Whichever way a value was encoded, decoding gives it back.
pub proof fn decoding_undoes_encoding(raw: Seq<u8>, bytes: Seq<u8>)
    requires
        encodes(raw, bytes),
    ensures
        decoded_bytes(raw) == bytes,
    decreases bytes.len(),
{
    if bytes.len() > 0 {
        let b = bytes[0];
        let rest = bytes.skip(1);
        assert(seq![b] + rest =~= bytes);
        if is_escape(raw) {
            decoding_undoes_encoding(raw.skip(3), rest);
        } else {
            decoding_undoes_encoding(raw.skip(1), rest);
        }
        assert(decoded_bytes(raw) =~= seq![b] + rest);
    }
}

/// What a browser sends is a form encoding.
proof fn lemma_sent_is_encoded(bytes: Seq<u8>)
    ensures
        encodes(sent_bytes(bytes), bytes),
    decreases bytes.len(),
{
    if bytes.len() > 0 {
        let b = bytes[0];
        let tail = sent_bytes(bytes.skip(1));
        let raw = sent_byte(b) + tail;
        lemma_sent_is_encoded(bytes.skip(1));
        if is_plain(b) || b == 0x20 {
            assert(raw.skip(1) =~= tail);
        } else {
            assert(raw.skip(3) =~= tail);
            assert(is_escape(raw));
        }
    }
}

/// What is sent of a value holds neither of the two separators.
proof fn lemma_sent_has_no_separator(bytes: Seq<u8>)
    ensures
        forall|i: int|
            0 <= i < sent_bytes(bytes).len() ==> #[trigger] sent_bytes(bytes)[i] != 0x26
                && sent_bytes(bytes)[i] != 0x3D,
    decreases bytes.len(),
{
    if bytes.len() > 0 {
        lemma_sent_has_no_separator(bytes.skip(1));
        let head = sent_byte(bytes[0]);
        let tail = sent_bytes(bytes.skip(1));
        let all = sent_bytes(bytes);
        assert forall|i: int| 0 <= i < all.len() implies #[trigger] all[i] != 0x26 && all[i]
            != 0x3D by {
            if i < head.len() {
                assert(all[i] == head[i]);
            } else {
                assert(all[i] == tail[i - head.len()]);
            }
        }
    }
}

/// One field as a browser sends it.
pub open spec fn sent_field(f: Field, value: Seq<char>) -> Seq<u8> {
    sent_bytes(encode_utf8(f.key_text())) + seq![0x3Du8] + sent_bytes(encode_utf8(value))
}

/// The first `n` fields of a form as a browser sends them.
pub open spec fn sent_form(values: Seq<Seq<char>>, n: nat) -> Seq<u8>
    decreases n,
{
    if n == 0 {
        Seq::empty()
    } else if n == 1 {
        sent_field(Field::at(0), values[0])
    } else {
        sent_form(values, (n - 1) as nat) + seq![0x26u8] + sent_field(
            Field::at(n - 1),
            values[n - 1],
        )
    }
}

/// The fields of a form, each as a browser sends it.
pub open spec fn sent_fields(values: Seq<Seq<char>>, n: nat) -> Seq<Seq<u8>> {
    Seq::new(n, |i: int| sent_field(Field::at(i), values[i]))
}

proof fn lemma_pieces_nonempty(s: Seq<u8>, separator: u8)
    ensures
        pieces(s, separator).len() > 0,
    decreases s.len(),
{
    if s.len() > 0 {
        lemma_pieces_nonempty(s.drop_last(), separator);
    }
}

/// More without a separator continues the last piece.
proof fn lemma_pieces_continue(s: Seq<u8>, more: Seq<u8>, separator: u8)
    requires
        forall|i: int| 0 <= i < more.len() ==> #[trigger] more[i] != separator,
    ensures
        pieces(s + more, separator) == pieces(s, separator).drop_last().push(
            pieces(s, separator).last() + more,
        ),
    decreases more.len(),
{
    lemma_pieces_nonempty(s, separator);
    let p = pieces(s, separator);
    if more.len() == 0 {
        assert(s + more =~= s);
        assert(p.last() + more =~= p.last());
        assert(p.drop_last().push(p.last()) =~= p);
    } else {
        let less = more.drop_last();
        assert forall|i: int| 0 <= i < less.len() implies #[trigger] less[i] != separator by {
            assert(less[i] == more[i]);
        }
        lemma_pieces_continue(s, less, separator);
        assert((s + more).drop_last() =~= s + less);
        assert(more[more.len() - 1] != separator);
        let q = p.drop_last().push(p.last() + less);
        assert(q.drop_last() =~= p.drop_last());
        assert((p.last() + less).push(more.last()) =~= p.last() + more);
    }
}

proof fn lemma_sent_field(f: Field, value: Seq<char>)
    ensures
        forall|i: int|
            0 <= i < sent_field(f, value).len() ==> #[trigger] sent_field(f, value)[i] != 0x26,
        first_place(sent_field(f, value), 0x3D) == sent_bytes(encode_utf8(f.key_text())).len(),
        decoded_text(
            sent_field(f, value).take(first_place(sent_field(f, value), 0x3D)),
        ) == f.key_text(),
        decoded_text(
            sent_field(f, value).skip(first_place(sent_field(f, value), 0x3D) + 1),
        ) == value,
        first_place(sent_field(f, value), 0x3D) < sent_field(f, value).len(),
{
    let k = sent_bytes(encode_utf8(f.key_text()));
    let v = sent_bytes(encode_utf8(value));
    let all = sent_field(f, value);
    lemma_sent_has_no_separator(encode_utf8(f.key_text()));
    lemma_sent_has_no_separator(encode_utf8(value));
    assert forall|i: int| 0 <= i < all.len() implies #[trigger] all[i] != 0x26 by {
        if i < k.len() {
            assert(all[i] == k[i]);
        } else if i > k.len() {
            assert(all[i] == v[i - k.len() - 1]);
        }
    }
    lemma_first_place(all, 0x3D);
    let p = first_place(all, 0x3D);
    assert(all[k.len() as int] == 0x3D);
    if p < k.len() {
        assert(all[p] == k[p]);
    }
    assert(p == k.len());
    assert(all.take(p) =~= k);
    assert(all.skip(p + 1) =~= v);
    lemma_sent_is_encoded(encode_utf8(f.key_text()));
    lemma_sent_is_encoded(encode_utf8(value));
    decoding_undoes_encoding(k, encode_utf8(f.key_text()));
    decoding_undoes_encoding(v, encode_utf8(value));
    encode_utf8_valid_utf8(f.key_text());
    encode_utf8_valid_utf8(value);
    encode_utf8_decode_utf8(f.key_text());
    encode_utf8_decode_utf8(value);
}

proof fn lemma_sent_form_pieces(values: Seq<Seq<char>>, n: nat)
    requires
        1 <= n <= 9,
    ensures
        pieces(sent_form(values, n), 0x26) == sent_fields(values, n),
    decreases n,
{
    let last = sent_field(Field::at(n - 1), values[n - 1]);
    lemma_sent_field(Field::at(n - 1), values[n - 1]);
    if n == 1 {
        let none = Seq::<u8>::empty();
        lemma_pieces_continue(none, last, 0x26);
        assert(none + last =~= last);
        assert(pieces(none, 0x26) =~= seq![none]);
        assert(pieces(none, 0x26).drop_last() =~= Seq::<Seq<u8>>::empty());
        assert(pieces(last, 0x26) =~= sent_fields(values, 1));
    } else {
        lemma_sent_form_pieces(values, (n - 1) as nat);
        let before = sent_form(values, (n - 1) as nat);
        let joined = before + seq![0x26u8];
        assert(joined.drop_last() =~= before);
        assert(pieces(joined, 0x26) =~= pieces(before, 0x26).push(Seq::empty()));
        lemma_pieces_continue(joined, last, 0x26);
        assert(Seq::<u8>::empty() + last =~= last);
        assert(pieces(before, 0x26).push(Seq::empty()).drop_last() =~= pieces(before, 0x26));
        assert(pieces(joined + last, 0x26) =~= sent_fields(values, n));
    }
}

/// What a browser submits is what the device takes: every field takes what was
/// typed for it, a base URL without its tail, but for secrets whose box was left
/// blank, which stay as they are.
pub proof fn submitted_form_is_applied(texts: Seq<Seq<char>>, values: Seq<Seq<char>>, f: Field)
    requires
        texts.len() == 9,
        values.len() == 9,
    ensures
        with_pieces(texts, pieces(sent_form(values, 9), 0x26))[f.place()] == (if f.secret()
            && values[f.place()].len() == 0 {
            texts[f.place()]
        } else {
            stored(f, values[f.place()])
        }),
{
    lemma_sent_form_pieces(values, 9);
    lemma_fields_applied(texts, values, 9, f);
    crate::settings::field_order_is_complete(f, 0);
}

proof fn lemma_fields_applied(texts: Seq<Seq<char>>, values: Seq<Seq<char>>, n: nat, f: Field)
    requires
        n <= 9,
        texts.len() == 9,
        values.len() == 9,
    ensures
        ({
            let after = with_pieces(texts, sent_fields(values, n));
            &&& after.len() == 9
            &&& after[f.place()] == (if f.place() >= n || (f.secret() && values[f.place()].len()
                == 0) {
                texts[f.place()]
            } else {
                stored(f, values[f.place()])
            })
        }),
    decreases n,
{
    if n > 0 {
        lemma_fields_applied(texts, values, (n - 1) as nat, f);
        let ps = sent_fields(values, n);
        assert(ps.drop_last() =~= sent_fields(values, (n - 1) as nat));
        let g = Field::at(n - 1);
        lemma_sent_field(g, values[n - 1]);
        assert(named(g.key_text()) == Some(g)) by {
            assert(exists|h: Field| h.key_text() == g.key_text());
            let h = choose|h: Field| h.key_text() == g.key_text();
            crate::settings::keys_are_distinct(h, g);
        }
        crate::settings::field_order_is_complete(g, n - 1);
        crate::settings::field_order_is_complete(f, n - 1);
    }
}

/// The pieces of two bodies with a separator between them are those of the one
/// and then those of the other.
proof fn lemma_pieces_join(a: Seq<u8>, b: Seq<u8>, separator: u8)
    ensures
        pieces(a + seq![separator] + b, separator) == pieces(a, separator) + pieces(b, separator),
    decreases b.len(),
{
    let joined = a + seq![separator];
    let left = pieces(a, separator);
    if b.len() == 0 {
        assert(joined + b =~= joined);
        assert(joined.drop_last() =~= a);
        assert(pieces(joined, separator) =~= left + pieces(b, separator));
    } else {
        lemma_pieces_join(a, b.drop_last(), separator);
        lemma_pieces_nonempty(b.drop_last(), separator);
        let right = pieces(b.drop_last(), separator);
        assert((joined + b).drop_last() =~= joined + b.drop_last());
        assert((left + right).drop_last() =~= left + right.drop_last());
        assert(pieces(joined + b, separator) =~= left + pieces(b, separator));
    }
}

proof fn lemma_with_pieces_add(texts: Seq<Seq<char>>, ps: Seq<Seq<u8>>, qs: Seq<Seq<u8>>)
    ensures
        with_pieces(texts, ps + qs) == with_pieces(with_pieces(texts, ps), qs),
    decreases qs.len(),
{
    if qs.len() == 0 {
        assert(ps + qs =~= ps);
    } else {
        lemma_with_pieces_add(texts, ps, qs.drop_last());
        assert((ps + qs).drop_last() =~= ps + qs.drop_last());
    }
}

/// Two bodies joined by an ampersand do what the one does and then the other.
pub proof fn joined_forms_are_applied_in_turn(texts: Seq<Seq<char>>, a: Seq<u8>, b: Seq<u8>)
    ensures
        with_pieces(texts, pieces(a + seq![0x26u8] + b, 0x26)) == with_pieces(
            with_pieces(texts, pieces(a, 0x26)),
            pieces(b, 0x26),
        ),
{
    lemma_pieces_join(a, b, 0x26);
    lemma_with_pieces_add(texts, pieces(a, 0x26), pieces(b, 0x26));
}

/// A page shows a text as it is: the four characters that mean something in a page
/// stand as what is read as them, every other one as itself, in order.
pub proof fn pages_show_texts_as_they_are(a: Seq<char>, c: char, b: Seq<char>)
    ensures
        escaped(a + b) == escaped(a) + escaped(b),
        escaped(seq![c]) == escape(c),
        c == '&' ==> escape(c) == "&amp;"@,
        c == '<' ==> escape(c) == "&lt;"@,
        c == '>' ==> escape(c) == "&gt;"@,
        c == '"' ==> escape(c) == "&quot;"@,
        c != '&' && c != '<' && c != '>' && c != '"' ==> escape(c) == seq![c],
        escaped(Seq::empty()) == Seq::<char>::empty(),
    decreases b.len(),
{
    reveal_with_fuel(escaped, 2);
    assert(seq![c].drop_last() =~= Seq::<char>::empty());
    assert(escaped(Seq::<char>::empty()) + escape(c) =~= escape(c));
    if b.len() == 0 {
        assert(a + b =~= a);
        assert(escaped(a) + escaped(b) =~= escaped(a));
    } else {
        pages_show_texts_as_they_are(a, c, b.drop_last());
        assert((a + b).drop_last() =~= a + b.drop_last());
        assert(escaped(a + b) =~= escaped(a) + escaped(b));
    }
}

/// Whether a text stands somewhere in another.
pub open spec fn stands_in(part: Seq<char>, all: Seq<char>) -> bool {
    exists|before: Seq<char>, after: Seq<char>| all == #[trigger] (before + part + after)
}

proof fn lemma_stands_deeper(part: Seq<char>, a: Seq<char>, all: Seq<char>, b: Seq<char>)
    requires
        stands_in(part, all),
    ensures
        stands_in(part, a + all + b),
{
    let (x, y) = choose|x: Seq<char>, y: Seq<char>| all == #[trigger] (x + part + y);
    assert(a + all + b =~= (a + x) + part + (y + b));
}

proof fn lemma_field_stands(settings: Settings, n: nat, i: int)
    requires
        0 <= i < n <= 9,
    ensures
        stands_in(
            field_html(Field::at(i), settings.text(Field::at(i))),
            fields_html(settings, n),
        ),
    decreases n,
{
    let before = fields_html(settings, (n - 1) as nat);
    let f = Field::at(n - 1);
    let last = field_html(f, settings.text(f));
    let none = Seq::<char>::empty();
    if i == n - 1 {
        assert(fields_html(settings, n) =~= before + last + none);
    } else {
        lemma_field_stands(settings, (n - 1) as nat, i);
        lemma_stands_deeper(
            field_html(Field::at(i), settings.text(Field::at(i))),
            none,
            before,
            last,
        );
        assert(none + before + last =~= fields_html(settings, n));
    }
}

/// The form has an input for every field, under the field's name. It is filled with
/// what is set, but for a secret, which is a password to type that only says
/// whether there is one.
pub proof fn forms_are_filled_in(settings: Settings, f: Field)
    ensures
        !(f is WifiPassword || f is AgentApiKey || f is SpeechApiKey) ==> stands_in(
            "\" value=\""@ + escaped(settings.text(f)) + "\">"@,
            form_html(settings),
        ),
        (f is WifiPassword || f is AgentApiKey || f is SpeechApiKey) && settings.text(f).len() > 0
            ==> stands_in(
            " name="@ + f.key_text() + " type=password autocomplete=off placeholder=\""@ + escaped(
                "unchanged"@,
            ) + "\">"@,
            form_html(settings),
        ),
        stands_in(
            "</label><input id="@ + f.key_text() + " name="@ + f.key_text(),
            form_html(settings),
        ),
        stands_in("<label for="@ + f.key_text() + ">"@ + escaped(f.label_text()), form_html(settings)),
{
    crate::settings::field_order_is_complete(f, 0);
    let value = settings.text(f);
    let html = field_html(f, value);
    let fields = fields_html(settings, 9);
    lemma_field_stands(settings, 9, f.place());
    lemma_stands_deeper(html, FORM_HEAD@, fields, FORM_TAIL@);
    let page = form_html(settings);
    let label = "<label for="@ + f.key_text() + ">"@ + escaped(f.label_text());
    let input = "</label><input id="@ + f.key_text() + " name="@ + f.key_text();
    lemma_parts_of_a_field(f, value);
    lemma_stands_within(label, html, page);
    lemma_stands_within(input, html, page);
    if !f.secret() {
        lemma_value_of_a_field(f, value);
        lemma_stands_within("\" value=\""@ + escaped(value) + "\">"@, html, page);
    } else if value.len() > 0 {
        lemma_secret_of_a_field(f, value);
        lemma_stands_within(
            " name="@ + f.key_text() + " type=password autocomplete=off placeholder=\""@ + escaped(
                "unchanged"@,
            ) + "\">"@,
            html,
            page,
        );
    }
}

proof fn lemma_stands_within(part: Seq<char>, middle: Seq<char>, all: Seq<char>)
    requires
        stands_in(part, middle),
        stands_in(middle, all),
    ensures
        stands_in(part, all),
{
    let (x, y) = choose|x: Seq<char>, y: Seq<char>| all == #[trigger] (x + middle + y);
    lemma_stands_deeper(part, x, middle, y);
}

proof fn lemma_stands(a: Seq<char>, part: Seq<char>, b: Seq<char>)
    ensures
        stands_in(part, a + part + b),
{
}

proof fn lemma_regroup(a: Seq<char>, b: Seq<char>, c: Seq<char>)
    ensures
        a + (b + c) == a + b + c,
{
    assert(a + (b + c) =~= a + b + c);
}

proof fn lemma_parts_of_a_field(f: Field, value: Seq<char>)
    ensures
        stands_in("<label for="@ + f.key_text() + ">"@ + escaped(f.label_text()), field_html(f, value)),
        stands_in(
            "</label><input id="@ + f.key_text() + " name="@ + f.key_text(),
            field_html(f, value),
        ),
{
    let k = f.key_text();
    let label = "<label for="@ + k + ">"@ + escaped(f.label_text());
    let a = "</label><input id="@;
    let n = " name="@;
    let tail = input_of(f, value) + ">"@;
    let input = a + k + n + k;
    lemma_regroup(label + a + k + n + k, input_of(f, value), ">"@);
    lemma_regroup(label, a, k);
    lemma_regroup(label, a + k, n);
    lemma_regroup(label, a + k + n, k);
    assert(field_html(f, value) == label + input + tail);
    lemma_stands(label, input, tail);
    lemma_regroup(label, input, tail);
    let none = Seq::<char>::empty();
    assert(none + label =~= label);
    lemma_stands(none, label, input + tail);
}

proof fn lemma_value_of_a_field(f: Field, value: Seq<char>)
    requires
        !f.secret(),
    ensures
        stands_in("\" value=\""@ + escaped(value) + "\">"@, field_html(f, value)),
{
    reveal_strlit("\">");
    reveal_strlit("\"");
    reveal_strlit(">");
    assert("\">"@ =~= "\""@ + ">"@);
    let k = f.key_text();
    let head = "<label for="@ + k + ">"@ + escaped(f.label_text()) + "</label><input id="@ + k
        + " name="@ + k;
    let front = (if f.base_url() {
        " type=url inputmode=url"@
    } else {
        " type=text"@
    }) + " autocapitalize=off autocorrect=off placeholder=\""@ + escaped(f.hint_text());
    let v = "\" value=\""@;
    let e = escaped(value);
    lemma_regroup(front, v, e);
    lemma_regroup(front, v + e, "\""@);
    assert(input_of(f, value) == front + (v + e + "\""@));
    lemma_regroup(head, front, v + e + "\""@);
    lemma_regroup(head + front, v + e + "\""@, ">"@);
    lemma_regroup(v + e, "\""@, ">"@);
    let none = Seq::<char>::empty();
    let part = v + e + "\">"@;
    assert(field_html(f, value) == head + front + part);
    assert(head + front + part + none =~= head + front + part);
    lemma_stands(head + front, part, none);
}

proof fn lemma_secret_of_a_field(f: Field, value: Seq<char>)
    requires
        f.secret(),
        value.len() > 0,
    ensures
        stands_in(
            " name="@ + f.key_text() + " type=password autocomplete=off placeholder=\""@ + escaped(
                "unchanged"@,
            ) + "\">"@,
            field_html(f, value),
        ),
{
    reveal_strlit("\">");
    reveal_strlit("\"");
    reveal_strlit(">");
    assert("\">"@ =~= "\""@ + ">"@);
    let k = f.key_text();
    let head = "<label for="@ + k + ">"@ + escaped(f.label_text()) + "</label><input id="@ + k;
    let n = " name="@;
    let t = " type=password autocomplete=off placeholder=\""@;
    let e = escaped("unchanged"@);
    assert(input_of(f, value) == t + e + "\""@);
    lemma_regroup(head, n, k);
    lemma_regroup(head, n + k, t + e + "\""@);
    lemma_regroup(head, n + k + (t + e + "\""@), ">"@);
    lemma_regroup(n + k, t + e + "\""@, ">"@);
    lemma_regroup(t + e, "\""@, ">"@);
    lemma_regroup(n + k, t + e, "\">"@);
    lemma_regroup(n + k, t, e);
    let none = Seq::<char>::empty();
    let part = n + k + t + e + "\">"@;
    assert(field_html(f, value) == head + part);
    assert(head + part + none =~= head + part);
    lemma_stands(head, part, none);
}

/// The pieces of a form body are what stands between the separators: joined by
/// them, they are the body again, and none has one in it.
pub proof fn pieces_are_what_stands_between(s: Seq<u8>, separator: u8, t: Seq<u8>)
    ensures
        (forall|i: int| 0 <= i < s.len() ==> #[trigger] s[i] != separator) ==> pieces(s, separator)
            == seq![s],
        pieces(s.push(separator) + t, separator) == pieces(s, separator) + pieces(t, separator),
{
    lemma_one_piece(s, separator);
    lemma_pieces_split(s, separator, t);
}

proof fn lemma_one_piece(s: Seq<u8>, separator: u8)
    ensures
        (forall|i: int| 0 <= i < s.len() ==> #[trigger] s[i] != separator) ==> pieces(s, separator)
            == seq![s],
    decreases s.len(),
{
    if forall|i: int| 0 <= i < s.len() ==> #[trigger] s[i] != separator {
        if s.len() == 0 {
            assert(s =~= Seq::<u8>::empty());
        } else {
            let t = s.drop_last();
            assert forall|i: int| 0 <= i < t.len() implies #[trigger] t[i] != separator by {
                assert(s[i] != separator);
            }
            lemma_one_piece(t, separator);
            assert(s[s.len() - 1] != separator);
            assert(t.push(s.last()) =~= s);
            assert(pieces(s, separator) =~= seq![s]);
        }
    }
}

proof fn lemma_pieces_split(s: Seq<u8>, separator: u8, t: Seq<u8>)
    ensures
        pieces(s.push(separator) + t, separator) == pieces(s, separator) + pieces(t, separator),
    decreases t.len(),
{
    let all = s.push(separator) + t;
    if t.len() == 0 {
        assert(all =~= s.push(separator));
        assert(all.drop_last() =~= s);
        assert(pieces(all, separator) =~= pieces(s, separator) + pieces(t, separator));
    } else {
        let u = t.drop_last();
        lemma_pieces_split(s, separator, u);
        assert(all.drop_last() =~= s.push(separator) + u);
        lemma_pieces_nonempty(u, separator);
        let a = pieces(s, separator);
        let b = pieces(u, separator);
        assert((a + b).drop_last() =~= a + b.drop_last());
        assert((a + b).last() == b.last());
        assert(pieces(all, separator) =~= pieces(s, separator) + pieces(t, separator));
    }
}

} // verus!
