//! Turning resolved byte positions into the ordered url list of a
//! response: one ranged url per position, and the BGZF end-of-file
//! sentinel as a data url for the BGZF-backed formats.

use vstd::prelude::*;
use vstd::string::StringExecFns;
use crate::decimal::spec_decimal;
use crate::storage::{BytesPosition, BytesRange};
use crate::types::{Class, Format, Headers, Response, Url};

verus! {

/// The data url of the 28-byte BGZF end-of-file marker, base64-encoded.
pub open spec fn spec_bgzf_eof_data_url() -> Seq<char> {
    "data:;base64,H4sIBAAAAAAA/wYAQkMCABsAAwAAAAAAAAAAAA=="@
}

/// The data url that carries the BGZF end-of-file marker.
pub fn bgzf_eof_data_url() -> (r: String)
    ensures
        r@ == spec_bgzf_eof_data_url(),
{
    "data:;base64,H4sIBAAAAAAA/wYAQkMCABsAAwAAAAAAAAAAAA==".to_owned()
}

/// The `Range` header value of a position: empty when the position is the
/// whole object.
pub open spec fn spec_range_value(pos: BytesPosition) -> Seq<char> {
    if pos.start is None && pos.end is None {
        Seq::<char>::empty()
    } else {
        "bytes="@ + spec_decimal(
            (match pos.start {
                Some(s) => s,
                None => 0,
            }) as nat,
        ) + "-"@ + (match pos.end {
            Some(e) => spec_decimal((if e > 0 { (e - 1) as u64 } else { 0u64 }) as nat),
            None => Seq::<char>::empty(),
        })
    }
}

/// Build the url of one position.
fn url_of_position(url: &str, pos: &BytesPosition, class: Class) -> (r: Url)
    ensures
        r.url@ == url@,
        r.wf(),
        (pos.start is None && pos.end is None) ==> r.headers is None,
        !(pos.start is None && pos.end is None) ==> (r.headers matches Some(h) && h@ =~= seq![
            ("Range"@, spec_range_value(*pos)),
        ]),
        r.class == (if class == Class::Header {
            Some(Class::Header)
        } else {
            None
        }),
{
    let range = BytesRange::from_position(pos);
    let value = range.to_string();
    proof {
        assert(value@ == spec_range_value(*pos)) by {
            match pos.end {
                Some(e) => {
                    if e > 0 {
                        assert(range.end == Some((e - 1) as u64));
                    } else {
                        assert(range.end == Some(0u64));
                    }
                },
                None => {
                    assert(range.end is None);
                },
            }
        }
    }
    let out = Url::new(url);
    let out = if value.as_str().is_empty() {
        out
    } else {
        let headers = Headers::default().with_header("Range", value.as_str());
        proof {
            assert(headers@ =~= seq![("Range"@, spec_range_value(*pos))]);
        }
        out.with_headers(headers)
    };
    if matches!(class, Class::Header) {
        out.with_class(Class::Header)
    } else {
        out
    }
}

/// Whether the urls of a response, position by position, are the ranged
/// urls of the given positions under the given class.
pub open spec fn spec_urls_match(
    urls: Seq<Url>,
    positions: Seq<BytesPosition>,
    url: Seq<char>,
    class: Class,
) -> bool {
    forall|k: int|
        0 <= k < positions.len() ==> {
            let u = #[trigger] urls[k];
            &&& u.url@ == url
            &&& ((positions[k].start is None && positions[k].end is None) ==> u.headers is None)
            &&& (!(positions[k].start is None && positions[k].end is None) ==> (u.headers
                matches Some(h) && h@ =~= seq![("Range"@, spec_range_value(positions[k]))]))
            &&& u.class == (if class == Class::Header {
                Some(Class::Header)
            } else {
                None
            })
        }
}

/// The ranged urls of a list of positions, in order.
pub fn urls_for_positions(positions: &Vec<BytesPosition>, url: &str, class: Class) -> (r: Vec<
    Url,
>)
    ensures
        r@.len() == positions@.len(),
        spec_urls_match(r@, positions@, url@, class),
{
    let mut urls: Vec<Url> = Vec::new();
    let n = positions.len();
    let mut i: usize = 0;
    while i < n
        invariant
            n == positions@.len(),
            i <= n,
            urls@.len() == i,
            spec_urls_match(urls@, positions@.take(i as int), url@, class),
        decreases n - i,
    {
        let u = url_of_position(url, &positions[i], class);
        urls.push(u);
        proof {
            assert(spec_urls_match(urls@, positions@.take(i + 1), url@, class)) by {
                assert(positions@.take(i + 1) =~= positions@.take(i as int).push(
                    positions@[i as int]));
                assert(forall|k: int| 0 <= k < i ==> positions@.take(i + 1)[k]
                    == positions@.take(i as int)[k]);
            }
        }
        i += 1;
    }
    proof {
        assert(positions@.take(n as int) =~= positions@);
    }
    urls
}

/// Assemble the response: each position becomes a url with its `Range`
/// header, in order, and for the BGZF-backed formats the BGZF end-of-file
/// data url with class `body` closes the list.
pub fn positions_to_response(
    format: Format,
    class: Class,
    positions: &Vec<BytesPosition>,
    url: &str,
) -> (r: Response)
    ensures
        r.format == format,
        spec_urls_match(r.urls@, positions@, url@, class),
        format != Format::Cram ==> {
            &&& r.urls@.len() == positions@.len() + 1
            &&& r.urls@.last().url@ == spec_bgzf_eof_data_url()
            &&& r.urls@.last().class == Some(Class::Body)
            &&& r.urls@.last().headers is None
        },
        format == Format::Cram ==> r.urls@.len() == positions@.len(),
{
    let mut urls = urls_for_positions(positions, url, class);
    let ghost pre = urls@;
    let is_cram = matches!(format, Format::Cram);
    if !is_cram {
        let eof = Url::new(bgzf_eof_data_url().as_str()).with_class(Class::Body);
        urls.push(eof);
        proof {
            assert(spec_urls_match(urls@, positions@, url@, class)) by {
                assert(forall|k: int| 0 <= k < positions@.len() ==> urls@[k] == pre[k]);
            }
        }
    }
    Response::new(format, urls)
}

} // verus!
