use vstd::prelude::*;

use crate::backend;
use crate::error::Error;
use crate::event::XmlEvent;
use crate::node::Node;

verus! {

impl Node {
    /// Writes the XML [`Node`] as a character stream to the given
    /// [`quick_xml::Writer`] and flushes the underlying sink.
    ///
    /// The emitted event sequence is the verified flattening
    /// [`Node::to_events`]; turning each event into bytes is the writer's
    /// affair, and a sink failure aborts the write at once.
    ///
    /// # Errors
    ///
    /// This function will return an error if the event writing on the
    /// writer, or the final flush, fails.
    pub fn write_to<W: std::io::Write>(&self, writer: &mut quick_xml::Writer<W>) -> (r: Result<
        (),
        Error,
    >)
        ensures
            r matches Err(e) ==> e matches Error::IOError(_),
    {
        let evs = self.to_events();
        let n = evs.len();
        for i in 0..n
            invariant
                n == evs.len(),
        {
            let outcome = match &evs[i] {
                XmlEvent::Start { name, attributes } => backend::write_start(
                    writer,
                    name.as_str(),
                    attributes,
                ),
                XmlEvent::Empty { name, attributes } => backend::write_empty(
                    writer,
                    name.as_str(),
                    attributes,
                ),
                XmlEvent::End { name } => backend::write_end(writer, name.as_str()),
                XmlEvent::Text { text } => backend::write_text(writer, text.as_str()),
                XmlEvent::Eof => Ok(()),
                XmlEvent::Other => Ok(()),
            };
            match outcome {
                Ok(()) => {},
                Err(msg) => {
                    return Err(Error::IOError(msg));
                },
            }
        }
        match backend::flush_writer(writer) {
            Ok(()) => Ok(()),
            Err(msg) => Err(Error::IOError(msg)),
        }
    }

    /// Renders the node as text: writes it into an in-memory sink, then
    /// decodes the resulting bytes.  An in-memory write cannot fail, so the
    /// result is the decoding of the rendering of the node's flattening,
    /// and it fails exactly when those bytes are not valid text.
    ///
    /// # Errors
    ///
    /// This function will return an error if the rendered bytes are not
    /// valid UTF-8.
    pub fn to_text(&self) -> (r: Result<String, Error>)
        ensures
            match r {
                Ok(s) => crate::backend::utf8_of(crate::backend::render_of(crate::model::flat(self@)))
                    == Some(s@),
                Err(e) => e matches Error::Utf8Error(_) && crate::backend::utf8_of(
                    crate::backend::render_of(crate::model::flat(self@)),
                ) is None,
            },
    {
        let evs = self.to_events();
        let bytes = backend::render_events(&evs);
        match backend::utf8_to_str(bytes.as_slice()) {
            Ok(s) => Ok(s.to_owned()),
            Err(e) => Err(Error::Utf8Error(e)),
        }
    }
}

} // verus!
