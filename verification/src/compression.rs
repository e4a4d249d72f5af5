//! Which responses are compressed, and how the compression is announced.

use vstd::prelude::*;
use vstd::string::*;
use vstd::utf8::encode_utf8;
use crate::text::strs;

verus! {

/// The length below which a body is not compressed, unless another is set.
pub const DEFAULT_MIN_LENGTH: usize = 1024;

/// A compression algorithm.
#[derive(Clone, Copy, Debug, PartialEq, Eq, Structural)]
pub enum CompressionAlgo {
    /// Brotli
    Brotli,
    /// Deflate
    Deflate,
    /// Gzip
    Gzip,
}

impl CompressionAlgo {
    /// The name of the algorithm in the `content-encoding` header.
    pub open spec fn name(self) -> Seq<char> {
        match self {
            CompressionAlgo::Gzip => "gzip"@,
            CompressionAlgo::Deflate => "deflate"@,
            CompressionAlgo::Brotli => "br"@,
        }
    }

    /// The value of the `content-encoding` header that announces this
    /// algorithm.
    pub fn header_value(self) -> (value: &'static str)
        ensures
            value@ == self.name(),
    {
        match self {
            CompressionAlgo::Gzip => "gzip",
            CompressionAlgo::Deflate => "deflate",
            CompressionAlgo::Brotli => "br",
        }
    }
}

/// What is known of the body of a response before it is compressed.
#[derive(Clone, Copy, Debug, PartialEq, Eq, Structural)]
pub enum BodyShape {
    /// There is no body.
    Empty,
    /// The body is one piece of `len` bytes.
    Once { len: usize },
    /// The body is a list of pieces of `len` bytes in all.
    Chunks { len: usize },
    /// The body is a stream of unknown length.
    Stream,
}

/// Whether the bytes of `text` begin with the bytes of `prefix`.
pub open spec fn begins_with(text: Seq<char>, prefix: Seq<char>) -> bool {
    encode_utf8(prefix).is_prefix_of(encode_utf8(text))
}

/// The content types that are compressed, unless others are set: each
/// stands for every content type that begins with it.
pub open spec fn default_content_types() -> Seq<Seq<char>> {
    seq![
        "text/"@,
        "application/javascript"@,
        "application/json"@,
        "application/xml"@,
        "application/rss+xml"@,
        "image/svg+xml"@,
    ]
}

/// What a compression handler is set up with.
pub struct CompressionView {
    pub algo: CompressionAlgo,
    pub content_types: Seq<Seq<char>>,
    pub min_length: usize,
}

impl CompressionView {
    /// Whether a response is compressed: the flow was not ceased, the
    /// content type is given and begins with one of the content types of
    /// the handler, and there is a body, which is a stream or at least
    /// `min_length` bytes long.
    pub open spec fn compresses(
        self,
        ceased: bool,
        content_type: Seq<char>,
        body: BodyShape,
    ) -> bool {
        &&& !ceased
        &&& content_type.len() > 0
        &&& exists|i: int|
            0 <= i < self.content_types.len() && begins_with(
                content_type,
                #[trigger] self.content_types[i],
            )
        &&& match body {
            BodyShape::Empty => false,
            BodyShape::Once { len } => len >= self.min_length,
            BodyShape::Chunks { len } => len >= self.min_length,
            BodyShape::Stream => true,
        }
    }
}

/// Whether the bytes of `text` begin with the bytes of `prefix`.
pub fn starts_with(text: &str, prefix: &str) -> (res: bool)
    ensures
        res == begins_with(text@, prefix@),
{
    let t = text.as_bytes();
    let p = prefix.as_bytes();
    if p.len() > t.len() {
        return false;
    }
    let n: usize = p.len();
    let mut i: usize = 0;
    while i < n
        invariant
            n == p@.len(),
            n <= t@.len(),
            i <= n,
            p@ == encode_utf8(prefix@),
            t@ == encode_utf8(text@),
            forall|j: int| 0 <= j < i ==> p@[j] == t@[j],
        decreases n - i,
    {
        if p[i] != t[i] {
            proof {
                let head = t@.subrange(0, p@.len() as int);
                assert(head[i as int] == t@[i as int]);
                assert(p@[i as int] != head[i as int]);
                assert(p@ != head);
            }
            return false;
        }
        i += 1;
    }
    assert(p@ =~= t@.subrange(0, p@.len() as int));
    true
}

/// Compresses the bodies of responses of chosen content types.
#[derive(Debug)]
pub struct CompressionHandler {
    algo: CompressionAlgo,
    content_types: Vec<String>,
    min_length: usize,
}

impl View for CompressionHandler {
    type V = CompressionView;

    closed spec fn view(&self) -> CompressionView {
        CompressionView {
            algo: self.algo,
            content_types: strs(self.content_types@),
            min_length: self.min_length,
        }
    }
}

impl Default for CompressionHandler {
    fn default() -> (handler: CompressionHandler)
        ensures
            handler@ == (CompressionView {
                algo: CompressionAlgo::Gzip,
                content_types: default_content_types(),
                min_length: DEFAULT_MIN_LENGTH,
            }),
    {
        CompressionHandler::new(CompressionAlgo::Gzip)
    }
}

impl CompressionHandler {
    /// A handler that compresses with `algo` the usual kinds of text of at
    /// least `DEFAULT_MIN_LENGTH` bytes.
    pub fn new(algo: CompressionAlgo) -> (handler: CompressionHandler)
        ensures
            handler@ == (CompressionView {
                algo,
                content_types: default_content_types(),
                min_length: DEFAULT_MIN_LENGTH,
            }),
    {
        let mut content_types: Vec<String> = Vec::new();
        content_types.push(String::from_str("text/"));
        content_types.push(String::from_str("application/javascript"));
        content_types.push(String::from_str("application/json"));
        content_types.push(String::from_str("application/xml"));
        content_types.push(String::from_str("application/rss+xml"));
        content_types.push(String::from_str("image/svg+xml"));
        assert(strs(content_types@) =~= default_content_types());
        CompressionHandler { algo, content_types, min_length: DEFAULT_MIN_LENGTH }
    }

    /// This handler with the algorithm `algo`.
    pub fn with_algo(self, algo: CompressionAlgo) -> (handler: CompressionHandler)
        ensures
            handler@ == (CompressionView { algo, ..self@ }),
    {
        CompressionHandler { algo, content_types: self.content_types, min_length: self.min_length }
    }

    /// The algorithm.
    pub fn algo(&self) -> (algo: CompressionAlgo)
        ensures
            algo == self@.algo,
    {
        self.algo
    }

    /// The length below which a body is not compressed.
    pub fn min_length(&mut self) -> (len: usize)
        ensures
            len == old(self)@.min_length,
            final(self)@ == old(self)@,
    {
        self.min_length
    }

    /// Sets the length below which a body is not compressed.
    pub fn set_min_length(&mut self, size: usize)
        ensures
            final(self)@ == (CompressionView { min_length: size, ..old(self)@ }),
    {
        self.min_length = size;
    }

    /// This handler with `min_length` as the length below which a body is
    /// not compressed.
    pub fn with_min_length(self, min_length: usize) -> (handler: CompressionHandler)
        ensures
            handler@ == (CompressionView { min_length, ..self@ }),
    {
        CompressionHandler { algo: self.algo, content_types: self.content_types, min_length }
    }

    /// The content types that are compressed.
    pub fn content_types(&self) -> (types: &Vec<String>)
        ensures
            strs(types@) == self@.content_types,
    {
        &self.content_types
    }

    /// The content types that are compressed, for changing them.
    pub fn content_types_mut(&mut self) -> (types: &mut Vec<String>)
        ensures
            strs(types@) == old(self)@.content_types,
            final(self)@ == (CompressionView {
                content_types: strs(final(types)@),
                ..old(self)@
            }),
    {
        &mut self.content_types
    }

    /// This handler with `content_types` as the content types that are
    /// compressed.
    pub fn with_content_types(self, content_types: &[String]) -> (handler: CompressionHandler)
        ensures
            handler@ == (CompressionView { content_types: strs(content_types@), ..self@ }),
    {
        let mut copy: Vec<String> = Vec::new();
        let n: usize = content_types.len();
        let mut i: usize = 0;
        while i < n
            invariant
                n == content_types@.len(),
                i <= n,
                copy@.len() == i,
                forall|j: int| 0 <= j < i ==> copy@[j]@ == content_types@[j]@,
            decreases n - i,
        {
            copy.push(content_types[i].clone());
            i += 1;
        }
        assert(strs(copy@) =~= strs(content_types@));
        CompressionHandler { algo: self.algo, content_types: copy, min_length: self.min_length }
    }

    /// Whether a response is compressed, given whether the flow was
    /// ceased, the content type of the response, which is empty if none
    /// is given, and the shape of its body.
    pub fn compresses(&self, ceased: bool, content_type: &str, body: BodyShape) -> (res: bool)
        ensures
            res == self@.compresses(ceased, content_type@, body),
    {
        if ceased {
            return false;
        }
        if content_type.is_empty() {
            return false;
        }
        let long_enough = match body {
            BodyShape::Empty => false,
            BodyShape::Once { len } => len >= self.min_length,
            BodyShape::Chunks { len } => len >= self.min_length,
            BodyShape::Stream => true,
        };
        if !long_enough {
            return false;
        }
        let n: usize = self.content_types.len();
        let mut i: usize = 0;
        while i < n
            invariant
                n == self.content_types@.len(),
                i <= n,
                !ceased,
                content_type@.len() > 0,
                long_enough,
                long_enough == match body {
                    BodyShape::Empty => false,
                    BodyShape::Once { len } => len >= self.min_length,
                    BodyShape::Chunks { len } => len >= self.min_length,
                    BodyShape::Stream => true,
                },
                forall|j: int|
                    0 <= j < i ==> !begins_with(content_type@, #[trigger] self@.content_types[j]),
            decreases n - i,
        {
            assert(self@.content_types[i as int] == self.content_types@[i as int]@);
            if starts_with(content_type, self.content_types[i].as_str()) {
                assert(begins_with(content_type@, self@.content_types[i as int]));
                return true;
            }
            i += 1;
        }
        false
    }
}

/// A handler that compresses with gzip and announces
/// `content-encoding: gzip`.
pub fn gzip() -> (handler: CompressionHandler)
    ensures
        handler@ == (CompressionView {
            algo: CompressionAlgo::Gzip,
            content_types: default_content_types(),
            min_length: DEFAULT_MIN_LENGTH,
        }),
{
    CompressionHandler::new(CompressionAlgo::Gzip)
}

/// A handler that compresses with deflate and announces
/// `content-encoding: deflate`.
pub fn deflate() -> (handler: CompressionHandler)
    ensures
        handler@ == (CompressionView {
            algo: CompressionAlgo::Deflate,
            content_types: default_content_types(),
            min_length: DEFAULT_MIN_LENGTH,
        }),
{
    CompressionHandler::new(CompressionAlgo::Deflate)
}

/// A handler that compresses with brotli and announces
/// `content-encoding: br`.
pub fn brotli() -> (handler: CompressionHandler)
    ensures
        handler@ == (CompressionView {
            algo: CompressionAlgo::Brotli,
            content_types: default_content_types(),
            min_length: DEFAULT_MIN_LENGTH,
        }),
{
    CompressionHandler::new(CompressionAlgo::Brotli)
}

} // verus!
