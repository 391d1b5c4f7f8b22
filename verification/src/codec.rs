//! The frame of a call: the method's wire tag, the number of arguments, then
//! the arguments, each as a length-prefixed field. Tags are names, so a frame
//! written under one version of a service is never taken for another method
//! under a later one.

use vstd::prelude::*;
use vstd::slice::*;

use crate::service::Service;
use crate::schema::{has_repeat, repeats};
use crate::wire::{
    all_fit, field, fields, fields_read, length_prefix, lemma_fields_push, lemma_read_field,
    lemma_read_field_sound, lemma_read_fields, lemma_read_fields_sound, lemma_read_len,
    lemma_read_len_sound, max_len, put_field, put_len, read_field, read_fields, read_len,
    take_field, take_len, views,
};

verus! {

/// A call: the index of the method in its service, and the arguments in
/// the order of the declared parameters, each already encoded as bytes.
#[derive(Debug)]
pub struct Call {
    pub method: usize,
    pub args: Vec<Vec<u8>>,
}

/// A call as a mathematical value.
pub struct CallView {
    pub method: int,
    pub args: Seq<Seq<u8>>,
}

impl View for Call {
    type V = CallView;

    open spec fn view(&self) -> CallView {
        CallView { method: self.method as int, args: views(self.args@) }
    }
}

/// Why bytes are not a frame.
#[derive(Clone, Copy, Debug, PartialEq, Eq, Structural)]
pub enum DecodeError {
    /// A length or a field runs past the end of the bytes.
    Truncated,
    /// The sender token of an envelope holds a byte that no token holds.
    BadSender,
    /// No method of the service has the tag.
    UnknownTag,
    /// The frame announces `found` arguments and the method takes `expected`.
    ArityMismatch { expected: usize, found: u64 },
    /// Bytes follow the last argument.
    TrailingBytes,
}

/// The call names a method of the service and has as many arguments as the
/// method has parameters, each short enough to be written.
pub open spec fn well_typed(svc: Service, call: CallView) -> bool {
    &&& 0 <= call.method < svc.count()
    &&& call.args.len() == svc.arity(call.method)
    &&& all_fit(call.args)
}

/// The frame of a call.
pub open spec fn frame(svc: Service, call: CallView) -> Seq<u8> {
    field(svc.tags()[call.method]) + length_prefix(call.args.len()) + fields(call.args)
}

/// The method that has the tag, where one has it.
pub open spec fn tag_index(tags: Seq<Seq<u8>>, tag: Seq<u8>) -> int {
    choose|i: int| 0 <= i < tags.len() && tags[i] == tag
}

/// What bytes mean under a service: the call that they frame, or why they
/// frame none.
pub open spec fn parse(svc: Service, bytes: Seq<u8>) -> Result<CallView, DecodeError> {
    match read_field(bytes) {
        None => Err(DecodeError::Truncated),
        Some((tag, rest)) => if !svc.tags().contains(tag) {
            Err(DecodeError::UnknownTag)
        } else {
            let method = tag_index(svc.tags(), tag);
            match read_len(rest) {
                None => Err(DecodeError::Truncated),
                Some((count, body)) => if count != svc.arity(method) {
                    Err(
                        DecodeError::ArityMismatch {
                            expected: svc.arity(method) as usize,
                            found: count as u64,
                        },
                    )
                } else {
                    match read_fields(body, count) {
                        None => Err(DecodeError::Truncated),
                        Some((args, after)) => if after.len() != 0 {
                            Err(DecodeError::TrailingBytes)
                        } else {
                            Ok(CallView { method, args })
                        },
                    }
                },
            }
        },
    }
}

/// In a list without repeats, an item is found where it stands.
pub proof fn lemma_tag_index(tags: Seq<Seq<u8>>, i: int)
    requires
        !has_repeat(tags),
        0 <= i < tags.len(),
    ensures
        tags.contains(tags[i]),
        tag_index(tags, tags[i]) == i,
{
    let j = tag_index(tags, tags[i]);
    if j < i {
        assert(repeats(tags, j, i));
    } else if i < j {
        assert(repeats(tags, i, j));
    }
}

/// The number of parameters of a method can be written as a length.
pub proof fn lemma_arity_fits(svc: Service, method: int)
    requires
        0 <= method < svc.count(),
    ensures
        svc.arity(method) <= max_len(),
{
    let params = svc.decl().methods@[method].params;
    assert(params@.len() == params.len());
}

/// Round trip: the frame of a well-typed call is read back as that call.
pub proof fn lemma_round_trip(svc: Service, call: CallView)
    requires
        svc.wf(),
        well_typed(svc, call),
    ensures
        parse(svc, frame(svc, call)) == Ok::<CallView, DecodeError>(call),
{
    let tag = svc.tags()[call.method];
    let body = fields(call.args);
    let rest = length_prefix(call.args.len()) + body;
    assert(frame(svc, call) =~= field(tag) + rest);
    lemma_read_field(tag, rest);
    lemma_tag_index(svc.tags(), call.method);
    lemma_arity_fits(svc, call.method);
    lemma_read_len(call.args.len(), body);
    lemma_read_fields(call.args, Seq::empty());
    assert(body + Seq::<u8>::empty() =~= body);
}

/// Only frames are read as calls: bytes that mean a call are the frame of
/// that call, and the call is well typed.
pub proof fn lemma_parse_sound(svc: Service, bytes: Seq<u8>)
    requires
        svc.wf(),
        parse(svc, bytes) is Ok,
    ensures
        well_typed(svc, parse(svc, bytes)->Ok_0),
        bytes == frame(svc, parse(svc, bytes)->Ok_0),
{
    lemma_read_field_sound(bytes);
    let (tag, rest) = read_field(bytes)->0;
    let method = tag_index(svc.tags(), tag);
    lemma_read_len_sound(rest);
    let (count, body) = read_len(rest)->0;
    lemma_read_fields_sound(body, count);
    let (args, after) = read_fields(body, count)->0;
    assert(after =~= Seq::<u8>::empty());
    assert(fields(args) + after =~= fields(args));
    assert(bytes =~= field(tag) + length_prefix(count) + fields(args));
}

/// Bytes that are the frame of no well-typed call are read as no call.
pub proof fn lemma_foreign_bytes_rejected(svc: Service, bytes: Seq<u8>)
    requires
        svc.wf(),
        forall|call: CallView| well_typed(svc, call) ==> bytes != #[trigger] frame(svc, call),
    ensures
        parse(svc, bytes) is Err,
{
    if parse(svc, bytes) is Ok {
        lemma_parse_sound(svc, bytes);
        let call = parse(svc, bytes)->Ok_0;
        assert(bytes == frame(svc, call));
    }
}

/// Two well-typed calls with the same frame are the same call.
pub proof fn lemma_frame_injective(svc: Service, a: CallView, b: CallView)
    requires
        svc.wf(),
        well_typed(svc, a),
        well_typed(svc, b),
        frame(svc, a) == frame(svc, b),
    ensures
        a == b,
{
    lemma_round_trip(svc, a);
    lemma_round_trip(svc, b);
}

/// Tags are names: a frame written under one service and read under another
/// is either refused or read as the method that has the same tag there, with
/// the same arguments, wherever that method stands in either declaration.
pub proof fn lemma_tags_are_names(old_svc: Service, new_svc: Service, call: CallView)
    requires
        old_svc.wf(),
        new_svc.wf(),
        well_typed(old_svc, call),
    ensures
        !new_svc.tags().contains(old_svc.tags()[call.method]) ==> parse(
            new_svc,
            frame(old_svc, call),
        ) == Err::<CallView, DecodeError>(DecodeError::UnknownTag),
        parse(new_svc, frame(old_svc, call)) matches Ok(read) ==> {
            &&& 0 <= read.method < new_svc.count()
            &&& new_svc.tags()[read.method] == old_svc.tags()[call.method]
            &&& read.args == call.args
        },
{
    let tag = old_svc.tags()[call.method];
    let body = fields(call.args);
    let rest = length_prefix(call.args.len()) + body;
    assert(frame(old_svc, call) =~= field(tag) + rest);
    lemma_read_field(tag, rest);
    lemma_arity_fits(old_svc, call.method);
    lemma_read_len(call.args.len(), body);
    lemma_read_fields(call.args, Seq::empty());
    assert(body + Seq::<u8>::empty() =~= body);
}

impl Service {
    /// Encodes a call. `None` where the service has no such method or the
    /// method takes another number of arguments.
    pub fn encode(&self, method: usize, args: &Vec<Vec<u8>>) -> (r: Option<Vec<u8>>)
        ensures
            self.wf(),
            r is Some <==> method < self.count() && args@.len() == self.arity(method as int),
            r matches Some(bytes) ==> {
                let call = CallView { method: method as int, args: views(args@) };
                well_typed(*self, call) && bytes@ == frame(*self, call)
            },
    {
        if method >= self.len() {
            return None;
        }
        if args.len() != self.arity_at(method) {
            return None;
        }
        let mut out: Vec<u8> = Vec::new();
        put_field(&mut out, self.tag_at(method).as_slice());
        put_len(&mut out, args.len());
        let ghost head = out@;
        let n = args.len();
        let mut i: usize = 0;
        assert(views(args@).subrange(0, 0) =~= Seq::<Seq<u8>>::empty());
        while i < n
            invariant
                n == args@.len(),
                i <= n,
                out@ == head + fields(views(args@).subrange(0, i as int)),
            decreases n - i,
        {
            put_field(&mut out, args[i].as_slice());
            proof {
                let done = views(args@).subrange(0, i as int);
                lemma_fields_push(done, args@[i as int]@);
                assert(views(args@).subrange(0, i + 1) =~= done.push(args@[i as int]@));
                assert(out@ =~= head + fields(views(args@).subrange(0, i + 1)));
            }
            i += 1;
        }
        proof {
            assert(views(args@).subrange(0, n as int) =~= views(args@));
            assert forall|k: int| 0 <= k < views(args@).len() implies (#[trigger] views(
                args@,
            )[k]).len() <= max_len() by {
                assert(args@[k]@.len() == args@[k].len());
            }
        }
        Some(out)
    }

    /// Decodes a frame: the call that it holds, or why it holds none.
    pub fn decode(&self, bytes: &[u8]) -> (r: Result<Call, DecodeError>)
        ensures
            self.wf(),
            match r {
                Ok(call) => parse(*self, bytes@) == Ok::<CallView, DecodeError>(call@),
                Err(e) => parse(*self, bytes@) == Err::<CallView, DecodeError>(e),
            },
    {
        proof {
            use_type_invariant(self);
        }
        let total = bytes.len();
        assert(bytes@.subrange(0, total as int) =~= bytes@);
        let (tag_start, tag_end) = match take_field(bytes, 0) {
            None => {
                return Err(DecodeError::Truncated);
            },
            Some(range) => range,
        };
        let tag = slice_subrange(bytes, tag_start, tag_end);
        let ghost rest = bytes@.subrange(tag_end as int, total as int);
        let method = match self.find_tag(tag) {
            None => {
                return Err(DecodeError::UnknownTag);
            },
            Some(m) => m,
        };
        proof {
            lemma_tag_index(self.tags(), method as int);
        }
        let (found, body_start) = match take_len(bytes, tag_end) {
            None => {
                return Err(DecodeError::Truncated);
            },
            Some(pair) => pair,
        };
        let expected = self.arity_at(method);
        if found != expected as u64 {
            return Err(DecodeError::ArityMismatch { expected, found });
        }
        let ghost body = bytes@.subrange(body_start as int, total as int);
        let mut args: Vec<Vec<u8>> = Vec::new();
        let mut pos = body_start;
        let mut i: usize = 0;
        assert(Seq::<Seq<u8>>::empty() + fields_read(body, expected as nat) =~= fields_read(
            body,
            expected as nat,
        ));
        while i < expected
            invariant
                self.wf(),
                total == bytes@.len(),
                read_field(bytes@) == Some((tag@, rest)),
                self.tags().contains(tag@),
                tag_index(self.tags(), tag@) == method,
                read_len(rest) == Some((expected as nat, body)),
                self.arity(method as int) == expected,
                body == bytes@.subrange(body_start as int, total as int),
                body_start <= pos <= total,
                i <= expected,
                args@.len() == i,
                read_fields(body, expected as nat) == match read_fields(
                    bytes@.subrange(pos as int, total as int),
                    (expected - i) as nat,
                ) {
                    None => None::<(Seq<Seq<u8>>, Seq<u8>)>,
                    Some((tail, after)) => Some((views(args@) + tail, after)),
                },
            decreases expected - i,
        {
            let ghost here = bytes@.subrange(pos as int, total as int);
            let ghost before = views(args@);
            match take_field(bytes, pos) {
                None => {
                    return Err(DecodeError::Truncated);
                },
                Some((start, end)) => {
                    args.push(slice_to_vec(slice_subrange(bytes, start, end)));
                    proof {
                        let item = bytes@.subrange(start as int, end as int);
                        let rest = bytes@.subrange(end as int, total as int);
                        assert(views(args@) =~= before.push(item));
                        match read_fields(rest, (expected - i - 1) as nat) {
                            None => {},
                            Some((tail, after)) => {
                                assert(before + (seq![item] + tail) =~= before.push(item) + tail);
                            },
                        }
                    }
                    pos = end;
                    i += 1;
                },
            }
        }
        assert(views(args@) + Seq::<Seq<u8>>::empty() =~= views(args@));
        if pos != total {
            return Err(DecodeError::TrailingBytes);
        }
        Ok(Call { method, args })
    }
}

} // verus!
