use vstd::prelude::*;

verus! {

// ---------------------------------------------------------------------------
// Declarations of the outside types that cross the trusted boundary.
// ---------------------------------------------------------------------------

/// `quick_xml::Reader`: the tokenizer that turns bytes into parse events.
#[verifier::external_type_specification]
#[verifier::external_body]
#[verifier::reject_recursive_types(R)]
pub struct ExReader<R>(quick_xml::Reader<R>);

/// `quick_xml::Writer`: the byte-level writer behind the write path.
#[verifier::external_type_specification]
#[verifier::external_body]
#[verifier::reject_recursive_types(W)]
pub struct ExWriter<W>(quick_xml::Writer<W>);

/// `quick_xml::events::BytesStart`: an undecoded start or empty tag.
#[verifier::external_type_specification]
#[verifier::external_body]
pub struct ExBytesStart<'i>(quick_xml::events::BytesStart<'i>);

/// `quick_xml::events::attributes::AttrError`: malformed attribute syntax.
#[verifier::external_type_specification]
#[verifier::external_body]
pub struct ExAttrError(quick_xml::events::attributes::AttrError);

/// `std::io::ErrorKind`: the kind tag of an I/O error.
#[verifier::external_type_specification]
#[verifier::external_body]
pub struct ExIoErrorKind(std::io::ErrorKind);

/// `std::str::Utf8Error`: invalid text encoding.
#[verifier::external_type_specification]
#[verifier::external_body]
pub struct ExUtf8Error(std::str::Utf8Error);

// ---------------------------------------------------------------------------
// Named results of outside functions.
// ---------------------------------------------------------------------------

/// What `str::trim` returns: the input without leading and trailing
/// whitespace.  The result depends on the characters alone.
pub uninterp spec fn trim_of(s: Seq<char>) -> Seq<char>;

/// What `str::from_utf8` returns: the decoding of the bytes, or nothing
/// when they are not valid UTF-8.  The result depends on the bytes alone.
pub uninterp spec fn utf8_of(b: Seq<u8>) -> Option<Seq<char>>;

/// What rendering an event sequence into an in-memory sink produces: the
/// bytes that `quick_xml::Writer` writes for these events, in order.  An
/// in-memory write cannot fail, and the bytes depend on the events alone.
pub uninterp spec fn render_of(evs: Seq<crate::event::EventView>) -> Seq<u8>;

// ---------------------------------------------------------------------------
// Trusted wrappers around outside functions.
// ---------------------------------------------------------------------------

/// A raw event as the tokenizer hands it over: tag names and text are
/// already decoded, but the attributes of a start or empty tag still sit
/// undecoded inside the tag.
pub(crate) enum RawEvent {
    /// An opening tag.
    Start(quick_xml::events::BytesStart<'static>),
    /// A self-closing tag.
    Empty(quick_xml::events::BytesStart<'static>),
    /// A closing tag, with its name.
    End(String),
    /// A run of character data.
    Text(String),
    /// The end of the input.
    Eof,
    /// Any other event kind.
    Other,
}

/// Relies on `quick_xml::Reader::read_event_into`: reads the next event
/// from the underlying source into `buf`, handing tags over in owned form
/// and a tokenizer error rendered to text.
#[verifier::external_body]
pub(crate) fn read_raw_event<R: std::io::BufRead>(
    reader: &mut quick_xml::Reader<R>,
    buf: &mut Vec<u8>,
) -> (r: Result<RawEvent, String>) {
    buf.clear();
    match reader.read_event_into(buf) {
        Ok(quick_xml::events::Event::Start(e)) => Ok(RawEvent::Start(e.into_owned())),
        Ok(quick_xml::events::Event::Empty(e)) => Ok(RawEvent::Empty(e.into_owned())),
        Ok(quick_xml::events::Event::End(e)) => Ok(RawEvent::End(e.name().into_inner().to_owned())),
        Ok(quick_xml::events::Event::Text(t)) => Ok(RawEvent::Text(t.into_inner().into_owned())),
        Ok(quick_xml::events::Event::Eof) => Ok(RawEvent::Eof),
        Ok(_) => Ok(RawEvent::Other),
        Err(e) => Err(format!("{}", e)),
    }
}

/// Relies on `quick_xml::events::BytesStart::name` and `::attributes`: the
/// tag's name and its attribute pairs in document order, duplicates
/// included, as owned text; or the tokenizer's error on malformed
/// attribute syntax.
#[verifier::external_body]
pub(crate) fn decode_tag(e: &quick_xml::events::BytesStart<'static>) -> (r: Result<
    (String, Vec<(String, String)>),
    quick_xml::events::attributes::AttrError,
>) {
    let name = e.name().into_inner().to_owned();
    let mut attributes = Vec::new();
    for a in e.attributes() {
        let a = a?;
        attributes.push((a.key.into_inner().to_owned(), a.value.into_owned()));
    }
    Ok((name, attributes))
}

/// Relies on `quick_xml::Writer::write_event` with an `Event::Start`:
/// writes an opening tag carrying the given name and attributes, the sink
/// error rendered to text.
#[verifier::external_body]
pub(crate) fn write_start<W: std::io::Write>(
    w: &mut quick_xml::Writer<W>,
    name: &str,
    attributes: &Vec<(String, String)>,
) -> (r: Result<(), String>) {
    let tag = quick_xml::events::BytesStart::new(name).with_attributes(
        attributes.iter().map(|p| (p.0.as_str(), p.1.as_str())),
    );
    w.write_event(quick_xml::events::Event::Start(tag)).map_err(|e| format!("{}", e))
}

/// Relies on `quick_xml::Writer::write_event` with an `Event::Empty`:
/// writes a self-closing tag carrying the given name and attributes.
#[verifier::external_body]
pub(crate) fn write_empty<W: std::io::Write>(
    w: &mut quick_xml::Writer<W>,
    name: &str,
    attributes: &Vec<(String, String)>,
) -> (r: Result<(), String>) {
    let tag = quick_xml::events::BytesStart::new(name).with_attributes(
        attributes.iter().map(|p| (p.0.as_str(), p.1.as_str())),
    );
    w.write_event(quick_xml::events::Event::Empty(tag)).map_err(|e| format!("{}", e))
}

/// Relies on `quick_xml::Writer::write_event` with an `Event::Text`:
/// writes a run of character data, escaped as the writer sees fit.
#[verifier::external_body]
pub(crate) fn write_text<W: std::io::Write>(w: &mut quick_xml::Writer<W>, text: &str) -> (r:
    Result<(), String>) {
    w.write_event(quick_xml::events::Event::Text(quick_xml::events::BytesText::new(text))).map_err(
        |e| format!("{}", e),
    )
}

/// Relies on `quick_xml::Writer::write_event` with an `Event::End`: writes
/// a closing tag carrying the given name.
#[verifier::external_body]
pub(crate) fn write_end<W: std::io::Write>(w: &mut quick_xml::Writer<W>, name: &str) -> (r: Result<
    (),
    String,
>) {
    w.write_event(quick_xml::events::Event::End(quick_xml::events::BytesEnd::new(name))).map_err(
        |e| format!("{}", e),
    )
}

/// Relies on `std::io::Write::flush`, reached through
/// `quick_xml::Writer::get_mut`: flushes the underlying sink.
#[verifier::external_body]
pub(crate) fn flush_writer<W: std::io::Write>(w: &mut quick_xml::Writer<W>) -> (r: Result<
    (),
    String,
>) {
    w.get_mut().flush().map_err(|e| format!("{}", e))
}

/// Relies on `quick_xml::Writer::new` and `::write_event` over a `Vec<u8>`
/// sink: renders the events in order and hands the bytes back.  Writing
/// into memory never fails, and each arm only moves one event's fields
/// into the corresponding write call.
#[verifier::external_body]
pub(crate) fn render_events(evs: &Vec<crate::event::XmlEvent>) -> (bytes: Vec<u8>)
    ensures
        bytes@ == render_of(crate::event::events_view(evs@)),
{
    let mut w = quick_xml::Writer::new(Vec::new());
    for ev in evs {
        let _ = match ev {
            crate::event::XmlEvent::Start { name, attributes } => write_start(&mut w, name, attributes),
            crate::event::XmlEvent::Empty { name, attributes } => write_empty(&mut w, name, attributes),
            crate::event::XmlEvent::End { name } => write_end(&mut w, name),
            crate::event::XmlEvent::Text { text } => write_text(&mut w, text),
            crate::event::XmlEvent::Eof | crate::event::XmlEvent::Other => Ok(()),
        };
    }
    w.into_inner()
}

/// Relies on `quick_xml::Reader::from_str`: a tokenizer over a textual
/// document held in memory.
#[verifier::external_body]
pub(crate) fn reader_from_str<'s>(s: &'s str) -> (r: quick_xml::Reader<&'s [u8]>) {
    quick_xml::Reader::from_str(s)
}

/// Relies on `str::trim`: removes leading and trailing whitespace.
#[verifier::external_body]
pub(crate) fn trim_str(s: &str) -> (r: &str)
    ensures
        r@ == trim_of(s@),
{
    s.trim()
}

/// Relies on `str::from_utf8`: decodes the bytes as UTF-8, and fails
/// exactly when they are not valid UTF-8.
#[verifier::external_body]
pub(crate) fn utf8_to_str(b: &[u8]) -> (r: Result<&str, std::str::Utf8Error>)
    ensures
        match r {
            Ok(s) => utf8_of(b@) == Some(s@),
            Err(_) => utf8_of(b@) is None,
        },
{
    std::str::from_utf8(b)
}

} // verus!
