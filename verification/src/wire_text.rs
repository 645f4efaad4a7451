//! The literal texts the server puts on the wire: replies, error
//! messages, and command names, each as a specification-level byte
//! sequence paired with the function that builds it at run time.
use vstd::prelude::*;

verus! {

/// `"PONG"`
pub open spec fn pong_text() -> Seq<u8> {
    seq![80u8, 79u8, 78u8, 71u8]
}

pub fn pong_bytes() -> (r: Vec<u8>)
    ensures
        r@ == pong_text(),
{
    let v: Vec<u8> = vec![80u8, 79u8, 78u8, 71u8];
    proof {
        assert(v@ =~= pong_text());
    }
    v
}

/// `"OK"`
pub open spec fn ok_text() -> Seq<u8> {
    seq![79u8, 75u8]
}

pub fn ok_bytes() -> (r: Vec<u8>)
    ensures
        r@ == ok_text(),
{
    let v: Vec<u8> = vec![79u8, 75u8];
    proof {
        assert(v@ =~= ok_text());
    }
    v
}

/// `"WRONGTYPE Operation against a key holding the wrong kind of value"`
pub open spec fn wrongtype_text() -> Seq<u8> {
    seq![87u8, 82u8, 79u8, 78u8, 71u8, 84u8, 89u8, 80u8, 69u8, 32u8, 79u8, 112u8, 101u8, 114u8, 97u8, 116u8, 105u8, 111u8, 110u8, 32u8, 97u8, 103u8, 97u8, 105u8, 110u8, 115u8, 116u8, 32u8, 97u8, 32u8, 107u8, 101u8, 121u8, 32u8, 104u8, 111u8, 108u8, 100u8, 105u8, 110u8, 103u8, 32u8, 116u8, 104u8, 101u8, 32u8, 119u8, 114u8, 111u8, 110u8, 103u8, 32u8, 107u8, 105u8, 110u8, 100u8, 32u8, 111u8, 102u8, 32u8, 118u8, 97u8, 108u8, 117u8, 101u8]
}

pub fn wrongtype_bytes() -> (r: Vec<u8>)
    ensures
        r@ == wrongtype_text(),
{
    let v: Vec<u8> = vec![87u8, 82u8, 79u8, 78u8, 71u8, 84u8, 89u8, 80u8, 69u8, 32u8, 79u8, 112u8, 101u8, 114u8, 97u8, 116u8, 105u8, 111u8, 110u8, 32u8, 97u8, 103u8, 97u8, 105u8, 110u8, 115u8, 116u8, 32u8, 97u8, 32u8, 107u8, 101u8, 121u8, 32u8, 104u8, 111u8, 108u8, 100u8, 105u8, 110u8, 103u8, 32u8, 116u8, 104u8, 101u8, 32u8, 119u8, 114u8, 111u8, 110u8, 103u8, 32u8, 107u8, 105u8, 110u8, 100u8, 32u8, 111u8, 102u8, 32u8, 118u8, 97u8, 108u8, 117u8, 101u8];
    proof {
        assert(v@ =~= wrongtype_text());
    }
    v
}

/// `"ERR value is not an integer or out of range"`
pub open spec fn not_int_text() -> Seq<u8> {
    seq![69u8, 82u8, 82u8, 32u8, 118u8, 97u8, 108u8, 117u8, 101u8, 32u8, 105u8, 115u8, 32u8, 110u8, 111u8, 116u8, 32u8, 97u8, 110u8, 32u8, 105u8, 110u8, 116u8, 101u8, 103u8, 101u8, 114u8, 32u8, 111u8, 114u8, 32u8, 111u8, 117u8, 116u8, 32u8, 111u8, 102u8, 32u8, 114u8, 97u8, 110u8, 103u8, 101u8]
}

pub fn not_int_bytes() -> (r: Vec<u8>)
    ensures
        r@ == not_int_text(),
{
    let v: Vec<u8> = vec![69u8, 82u8, 82u8, 32u8, 118u8, 97u8, 108u8, 117u8, 101u8, 32u8, 105u8, 115u8, 32u8, 110u8, 111u8, 116u8, 32u8, 97u8, 110u8, 32u8, 105u8, 110u8, 116u8, 101u8, 103u8, 101u8, 114u8, 32u8, 111u8, 114u8, 32u8, 111u8, 117u8, 116u8, 32u8, 111u8, 102u8, 32u8, 114u8, 97u8, 110u8, 103u8, 101u8];
    proof {
        assert(v@ =~= not_int_text());
    }
    v
}

/// `"request must be array"`
pub open spec fn not_array_text() -> Seq<u8> {
    seq![114u8, 101u8, 113u8, 117u8, 101u8, 115u8, 116u8, 32u8, 109u8, 117u8, 115u8, 116u8, 32u8, 98u8, 101u8, 32u8, 97u8, 114u8, 114u8, 97u8, 121u8]
}

pub fn not_array_bytes() -> (r: Vec<u8>)
    ensures
        r@ == not_array_text(),
{
    let v: Vec<u8> = vec![114u8, 101u8, 113u8, 117u8, 101u8, 115u8, 116u8, 32u8, 109u8, 117u8, 115u8, 116u8, 32u8, 98u8, 101u8, 32u8, 97u8, 114u8, 114u8, 97u8, 121u8];
    proof {
        assert(v@ =~= not_array_text());
    }
    v
}

/// `"empty request"`
pub open spec fn empty_request_text() -> Seq<u8> {
    seq![101u8, 109u8, 112u8, 116u8, 121u8, 32u8, 114u8, 101u8, 113u8, 117u8, 101u8, 115u8, 116u8]
}

pub fn empty_request_bytes() -> (r: Vec<u8>)
    ensures
        r@ == empty_request_text(),
{
    let v: Vec<u8> = vec![101u8, 109u8, 112u8, 116u8, 121u8, 32u8, 114u8, 101u8, 113u8, 117u8, 101u8, 115u8, 116u8];
    proof {
        assert(v@ =~= empty_request_text());
    }
    v
}

/// `"command must be bulk string"`
pub open spec fn cmd_not_bulk_text() -> Seq<u8> {
    seq![99u8, 111u8, 109u8, 109u8, 97u8, 110u8, 100u8, 32u8, 109u8, 117u8, 115u8, 116u8, 32u8, 98u8, 101u8, 32u8, 98u8, 117u8, 108u8, 107u8, 32u8, 115u8, 116u8, 114u8, 105u8, 110u8, 103u8]
}

pub fn cmd_not_bulk_bytes() -> (r: Vec<u8>)
    ensures
        r@ == cmd_not_bulk_text(),
{
    let v: Vec<u8> = vec![99u8, 111u8, 109u8, 109u8, 97u8, 110u8, 100u8, 32u8, 109u8, 117u8, 115u8, 116u8, 32u8, 98u8, 101u8, 32u8, 98u8, 117u8, 108u8, 107u8, 32u8, 115u8, 116u8, 114u8, 105u8, 110u8, 103u8];
    proof {
        assert(v@ =~= cmd_not_bulk_text());
    }
    v
}

/// `"invalid command"`
pub open spec fn invalid_command_text() -> Seq<u8> {
    seq![105u8, 110u8, 118u8, 97u8, 108u8, 105u8, 100u8, 32u8, 99u8, 111u8, 109u8, 109u8, 97u8, 110u8, 100u8]
}

pub fn invalid_command_bytes() -> (r: Vec<u8>)
    ensures
        r@ == invalid_command_text(),
{
    let v: Vec<u8> = vec![105u8, 110u8, 118u8, 97u8, 108u8, 105u8, 100u8, 32u8, 99u8, 111u8, 109u8, 109u8, 97u8, 110u8, 100u8];
    proof {
        assert(v@ =~= invalid_command_text());
    }
    v
}

/// `"ERR key must be bulk string"`
pub open spec fn key_not_bulk_text() -> Seq<u8> {
    seq![69u8, 82u8, 82u8, 32u8, 107u8, 101u8, 121u8, 32u8, 109u8, 117u8, 115u8, 116u8, 32u8, 98u8, 101u8, 32u8, 98u8, 117u8, 108u8, 107u8, 32u8, 115u8, 116u8, 114u8, 105u8, 110u8, 103u8]
}

pub fn key_not_bulk_bytes() -> (r: Vec<u8>)
    ensures
        r@ == key_not_bulk_text(),
{
    let v: Vec<u8> = vec![69u8, 82u8, 82u8, 32u8, 107u8, 101u8, 121u8, 32u8, 109u8, 117u8, 115u8, 116u8, 32u8, 98u8, 101u8, 32u8, 98u8, 117u8, 108u8, 107u8, 32u8, 115u8, 116u8, 114u8, 105u8, 110u8, 103u8];
    proof {
        assert(v@ =~= key_not_bulk_text());
    }
    v
}

/// `"ERR value must be bulk string"`
pub open spec fn value_not_bulk_text() -> Seq<u8> {
    seq![69u8, 82u8, 82u8, 32u8, 118u8, 97u8, 108u8, 117u8, 101u8, 32u8, 109u8, 117u8, 115u8, 116u8, 32u8, 98u8, 101u8, 32u8, 98u8, 117u8, 108u8, 107u8, 32u8, 115u8, 116u8, 114u8, 105u8, 110u8, 103u8]
}

pub fn value_not_bulk_bytes() -> (r: Vec<u8>)
    ensures
        r@ == value_not_bulk_text(),
{
    let v: Vec<u8> = vec![69u8, 82u8, 82u8, 32u8, 118u8, 97u8, 108u8, 117u8, 101u8, 32u8, 109u8, 117u8, 115u8, 116u8, 32u8, 98u8, 101u8, 32u8, 98u8, 117u8, 108u8, 107u8, 32u8, 115u8, 116u8, 114u8, 105u8, 110u8, 103u8];
    proof {
        assert(v@ =~= value_not_bulk_text());
    }
    v
}

/// `"ERR pushed values must be bulk strings"`
pub open spec fn pushed_not_bulk_text() -> Seq<u8> {
    seq![69u8, 82u8, 82u8, 32u8, 112u8, 117u8, 115u8, 104u8, 101u8, 100u8, 32u8, 118u8, 97u8, 108u8, 117u8, 101u8, 115u8, 32u8, 109u8, 117u8, 115u8, 116u8, 32u8, 98u8, 101u8, 32u8, 98u8, 117u8, 108u8, 107u8, 32u8, 115u8, 116u8, 114u8, 105u8, 110u8, 103u8, 115u8]
}

pub fn pushed_not_bulk_bytes() -> (r: Vec<u8>)
    ensures
        r@ == pushed_not_bulk_text(),
{
    let v: Vec<u8> = vec![69u8, 82u8, 82u8, 32u8, 112u8, 117u8, 115u8, 104u8, 101u8, 100u8, 32u8, 118u8, 97u8, 108u8, 117u8, 101u8, 115u8, 32u8, 109u8, 117u8, 115u8, 116u8, 32u8, 98u8, 101u8, 32u8, 98u8, 117u8, 108u8, 107u8, 32u8, 115u8, 116u8, 114u8, 105u8, 110u8, 103u8, 115u8];
    proof {
        assert(v@ =~= pushed_not_bulk_text());
    }
    v
}

/// `"ERR count must be bulk string"`
pub open spec fn count_not_bulk_text() -> Seq<u8> {
    seq![69u8, 82u8, 82u8, 32u8, 99u8, 111u8, 117u8, 110u8, 116u8, 32u8, 109u8, 117u8, 115u8, 116u8, 32u8, 98u8, 101u8, 32u8, 98u8, 117u8, 108u8, 107u8, 32u8, 115u8, 116u8, 114u8, 105u8, 110u8, 103u8]
}

pub fn count_not_bulk_bytes() -> (r: Vec<u8>)
    ensures
        r@ == count_not_bulk_text(),
{
    let v: Vec<u8> = vec![69u8, 82u8, 82u8, 32u8, 99u8, 111u8, 117u8, 110u8, 116u8, 32u8, 109u8, 117u8, 115u8, 116u8, 32u8, 98u8, 101u8, 32u8, 98u8, 117u8, 108u8, 107u8, 32u8, 115u8, 116u8, 114u8, 105u8, 110u8, 103u8];
    proof {
        assert(v@ =~= count_not_bulk_text());
    }
    v
}

/// `"ERR protocol error: expected bulk string"`
pub open spec fn expected_bulk_text() -> Seq<u8> {
    seq![69u8, 82u8, 82u8, 32u8, 112u8, 114u8, 111u8, 116u8, 111u8, 99u8, 111u8, 108u8, 32u8, 101u8, 114u8, 114u8, 111u8, 114u8, 58u8, 32u8, 101u8, 120u8, 112u8, 101u8, 99u8, 116u8, 101u8, 100u8, 32u8, 98u8, 117u8, 108u8, 107u8, 32u8, 115u8, 116u8, 114u8, 105u8, 110u8, 103u8]
}

pub fn expected_bulk_bytes() -> (r: Vec<u8>)
    ensures
        r@ == expected_bulk_text(),
{
    let v: Vec<u8> = vec![69u8, 82u8, 82u8, 32u8, 112u8, 114u8, 111u8, 116u8, 111u8, 99u8, 111u8, 108u8, 32u8, 101u8, 114u8, 114u8, 111u8, 114u8, 58u8, 32u8, 101u8, 120u8, 112u8, 101u8, 99u8, 116u8, 101u8, 100u8, 32u8, 98u8, 117u8, 108u8, 107u8, 32u8, 115u8, 116u8, 114u8, 105u8, 110u8, 103u8];
    proof {
        assert(v@ =~= expected_bulk_text());
    }
    v
}

/// `"error while parsing key"`
pub open spec fn key_parse_text() -> Seq<u8> {
    seq![101u8, 114u8, 114u8, 111u8, 114u8, 32u8, 119u8, 104u8, 105u8, 108u8, 101u8, 32u8, 112u8, 97u8, 114u8, 115u8, 105u8, 110u8, 103u8, 32u8, 107u8, 101u8, 121u8]
}

pub fn key_parse_bytes() -> (r: Vec<u8>)
    ensures
        r@ == key_parse_text(),
{
    let v: Vec<u8> = vec![101u8, 114u8, 114u8, 111u8, 114u8, 32u8, 119u8, 104u8, 105u8, 108u8, 101u8, 32u8, 112u8, 97u8, 114u8, 115u8, 105u8, 110u8, 103u8, 32u8, 107u8, 101u8, 121u8];
    proof {
        assert(v@ =~= key_parse_text());
    }
    v
}

/// `"ERR internal server error"`
pub open spec fn internal_text() -> Seq<u8> {
    seq![69u8, 82u8, 82u8, 32u8, 105u8, 110u8, 116u8, 101u8, 114u8, 110u8, 97u8, 108u8, 32u8, 115u8, 101u8, 114u8, 118u8, 101u8, 114u8, 32u8, 101u8, 114u8, 114u8, 111u8, 114u8]
}

pub fn internal_bytes() -> (r: Vec<u8>)
    ensures
        r@ == internal_text(),
{
    let v: Vec<u8> = vec![69u8, 82u8, 82u8, 32u8, 105u8, 110u8, 116u8, 101u8, 114u8, 110u8, 97u8, 108u8, 32u8, 115u8, 101u8, 114u8, 118u8, 101u8, 114u8, 32u8, 101u8, 114u8, 114u8, 111u8, 114u8];
    proof {
        assert(v@ =~= internal_text());
    }
    v
}

/// `"ERR protocol error"`
pub open spec fn protocol_text() -> Seq<u8> {
    seq![69u8, 82u8, 82u8, 32u8, 112u8, 114u8, 111u8, 116u8, 111u8, 99u8, 111u8, 108u8, 32u8, 101u8, 114u8, 114u8, 111u8, 114u8]
}

pub fn protocol_bytes() -> (r: Vec<u8>)
    ensures
        r@ == protocol_text(),
{
    let v: Vec<u8> = vec![69u8, 82u8, 82u8, 32u8, 112u8, 114u8, 111u8, 116u8, 111u8, 99u8, 111u8, 108u8, 32u8, 101u8, 114u8, 114u8, 111u8, 114u8];
    proof {
        assert(v@ =~= protocol_text());
    }
    v
}

/// `"ERR invalid first byte: "`
pub open spec fn first_byte_prefix_text() -> Seq<u8> {
    seq![69u8, 82u8, 82u8, 32u8, 105u8, 110u8, 118u8, 97u8, 108u8, 105u8, 100u8, 32u8, 102u8, 105u8, 114u8, 115u8, 116u8, 32u8, 98u8, 121u8, 116u8, 101u8, 58u8, 32u8]
}

pub fn first_byte_prefix_bytes() -> (r: Vec<u8>)
    ensures
        r@ == first_byte_prefix_text(),
{
    let v: Vec<u8> = vec![69u8, 82u8, 82u8, 32u8, 105u8, 110u8, 118u8, 97u8, 108u8, 105u8, 100u8, 32u8, 102u8, 105u8, 114u8, 115u8, 116u8, 32u8, 98u8, 121u8, 116u8, 101u8, 58u8, 32u8];
    proof {
        assert(v@ =~= first_byte_prefix_text());
    }
    v
}

/// `"ERR wrong number of arguments for 'get' command"`
pub open spec fn wrong_args_get_text() -> Seq<u8> {
    seq![69u8, 82u8, 82u8, 32u8, 119u8, 114u8, 111u8, 110u8, 103u8, 32u8, 110u8, 117u8, 109u8, 98u8, 101u8, 114u8, 32u8, 111u8, 102u8, 32u8, 97u8, 114u8, 103u8, 117u8, 109u8, 101u8, 110u8, 116u8, 115u8, 32u8, 102u8, 111u8, 114u8, 32u8, 39u8, 103u8, 101u8, 116u8, 39u8, 32u8, 99u8, 111u8, 109u8, 109u8, 97u8, 110u8, 100u8]
}

pub fn wrong_args_get_bytes() -> (r: Vec<u8>)
    ensures
        r@ == wrong_args_get_text(),
{
    let v: Vec<u8> = vec![69u8, 82u8, 82u8, 32u8, 119u8, 114u8, 111u8, 110u8, 103u8, 32u8, 110u8, 117u8, 109u8, 98u8, 101u8, 114u8, 32u8, 111u8, 102u8, 32u8, 97u8, 114u8, 103u8, 117u8, 109u8, 101u8, 110u8, 116u8, 115u8, 32u8, 102u8, 111u8, 114u8, 32u8, 39u8, 103u8, 101u8, 116u8, 39u8, 32u8, 99u8, 111u8, 109u8, 109u8, 97u8, 110u8, 100u8];
    proof {
        assert(v@ =~= wrong_args_get_text());
    }
    v
}

/// `"ERR wrong number of arguments for 'set' command"`
pub open spec fn wrong_args_set_text() -> Seq<u8> {
    seq![69u8, 82u8, 82u8, 32u8, 119u8, 114u8, 111u8, 110u8, 103u8, 32u8, 110u8, 117u8, 109u8, 98u8, 101u8, 114u8, 32u8, 111u8, 102u8, 32u8, 97u8, 114u8, 103u8, 117u8, 109u8, 101u8, 110u8, 116u8, 115u8, 32u8, 102u8, 111u8, 114u8, 32u8, 39u8, 115u8, 101u8, 116u8, 39u8, 32u8, 99u8, 111u8, 109u8, 109u8, 97u8, 110u8, 100u8]
}

pub fn wrong_args_set_bytes() -> (r: Vec<u8>)
    ensures
        r@ == wrong_args_set_text(),
{
    let v: Vec<u8> = vec![69u8, 82u8, 82u8, 32u8, 119u8, 114u8, 111u8, 110u8, 103u8, 32u8, 110u8, 117u8, 109u8, 98u8, 101u8, 114u8, 32u8, 111u8, 102u8, 32u8, 97u8, 114u8, 103u8, 117u8, 109u8, 101u8, 110u8, 116u8, 115u8, 32u8, 102u8, 111u8, 114u8, 32u8, 39u8, 115u8, 101u8, 116u8, 39u8, 32u8, 99u8, 111u8, 109u8, 109u8, 97u8, 110u8, 100u8];
    proof {
        assert(v@ =~= wrong_args_set_text());
    }
    v
}

/// `"ERR wrong number of arguments for 'lpush' command"`
pub open spec fn wrong_args_lpush_text() -> Seq<u8> {
    seq![69u8, 82u8, 82u8, 32u8, 119u8, 114u8, 111u8, 110u8, 103u8, 32u8, 110u8, 117u8, 109u8, 98u8, 101u8, 114u8, 32u8, 111u8, 102u8, 32u8, 97u8, 114u8, 103u8, 117u8, 109u8, 101u8, 110u8, 116u8, 115u8, 32u8, 102u8, 111u8, 114u8, 32u8, 39u8, 108u8, 112u8, 117u8, 115u8, 104u8, 39u8, 32u8, 99u8, 111u8, 109u8, 109u8, 97u8, 110u8, 100u8]
}

pub fn wrong_args_lpush_bytes() -> (r: Vec<u8>)
    ensures
        r@ == wrong_args_lpush_text(),
{
    let v: Vec<u8> = vec![69u8, 82u8, 82u8, 32u8, 119u8, 114u8, 111u8, 110u8, 103u8, 32u8, 110u8, 117u8, 109u8, 98u8, 101u8, 114u8, 32u8, 111u8, 102u8, 32u8, 97u8, 114u8, 103u8, 117u8, 109u8, 101u8, 110u8, 116u8, 115u8, 32u8, 102u8, 111u8, 114u8, 32u8, 39u8, 108u8, 112u8, 117u8, 115u8, 104u8, 39u8, 32u8, 99u8, 111u8, 109u8, 109u8, 97u8, 110u8, 100u8];
    proof {
        assert(v@ =~= wrong_args_lpush_text());
    }
    v
}

/// `"ERR wrong number of arguments for 'rpush' command"`
pub open spec fn wrong_args_rpush_text() -> Seq<u8> {
    seq![69u8, 82u8, 82u8, 32u8, 119u8, 114u8, 111u8, 110u8, 103u8, 32u8, 110u8, 117u8, 109u8, 98u8, 101u8, 114u8, 32u8, 111u8, 102u8, 32u8, 97u8, 114u8, 103u8, 117u8, 109u8, 101u8, 110u8, 116u8, 115u8, 32u8, 102u8, 111u8, 114u8, 32u8, 39u8, 114u8, 112u8, 117u8, 115u8, 104u8, 39u8, 32u8, 99u8, 111u8, 109u8, 109u8, 97u8, 110u8, 100u8]
}

pub fn wrong_args_rpush_bytes() -> (r: Vec<u8>)
    ensures
        r@ == wrong_args_rpush_text(),
{
    let v: Vec<u8> = vec![69u8, 82u8, 82u8, 32u8, 119u8, 114u8, 111u8, 110u8, 103u8, 32u8, 110u8, 117u8, 109u8, 98u8, 101u8, 114u8, 32u8, 111u8, 102u8, 32u8, 97u8, 114u8, 103u8, 117u8, 109u8, 101u8, 110u8, 116u8, 115u8, 32u8, 102u8, 111u8, 114u8, 32u8, 39u8, 114u8, 112u8, 117u8, 115u8, 104u8, 39u8, 32u8, 99u8, 111u8, 109u8, 109u8, 97u8, 110u8, 100u8];
    proof {
        assert(v@ =~= wrong_args_rpush_text());
    }
    v
}

/// `"ERR wrong number of arguments for 'lpop' command"`
pub open spec fn wrong_args_lpop_text() -> Seq<u8> {
    seq![69u8, 82u8, 82u8, 32u8, 119u8, 114u8, 111u8, 110u8, 103u8, 32u8, 110u8, 117u8, 109u8, 98u8, 101u8, 114u8, 32u8, 111u8, 102u8, 32u8, 97u8, 114u8, 103u8, 117u8, 109u8, 101u8, 110u8, 116u8, 115u8, 32u8, 102u8, 111u8, 114u8, 32u8, 39u8, 108u8, 112u8, 111u8, 112u8, 39u8, 32u8, 99u8, 111u8, 109u8, 109u8, 97u8, 110u8, 100u8]
}

pub fn wrong_args_lpop_bytes() -> (r: Vec<u8>)
    ensures
        r@ == wrong_args_lpop_text(),
{
    let v: Vec<u8> = vec![69u8, 82u8, 82u8, 32u8, 119u8, 114u8, 111u8, 110u8, 103u8, 32u8, 110u8, 117u8, 109u8, 98u8, 101u8, 114u8, 32u8, 111u8, 102u8, 32u8, 97u8, 114u8, 103u8, 117u8, 109u8, 101u8, 110u8, 116u8, 115u8, 32u8, 102u8, 111u8, 114u8, 32u8, 39u8, 108u8, 112u8, 111u8, 112u8, 39u8, 32u8, 99u8, 111u8, 109u8, 109u8, 97u8, 110u8, 100u8];
    proof {
        assert(v@ =~= wrong_args_lpop_text());
    }
    v
}

/// `"ERR wrong number of arguments for 'rpop' command"`
pub open spec fn wrong_args_rpop_text() -> Seq<u8> {
    seq![69u8, 82u8, 82u8, 32u8, 119u8, 114u8, 111u8, 110u8, 103u8, 32u8, 110u8, 117u8, 109u8, 98u8, 101u8, 114u8, 32u8, 111u8, 102u8, 32u8, 97u8, 114u8, 103u8, 117u8, 109u8, 101u8, 110u8, 116u8, 115u8, 32u8, 102u8, 111u8, 114u8, 32u8, 39u8, 114u8, 112u8, 111u8, 112u8, 39u8, 32u8, 99u8, 111u8, 109u8, 109u8, 97u8, 110u8, 100u8]
}

pub fn wrong_args_rpop_bytes() -> (r: Vec<u8>)
    ensures
        r@ == wrong_args_rpop_text(),
{
    let v: Vec<u8> = vec![69u8, 82u8, 82u8, 32u8, 119u8, 114u8, 111u8, 110u8, 103u8, 32u8, 110u8, 117u8, 109u8, 98u8, 101u8, 114u8, 32u8, 111u8, 102u8, 32u8, 97u8, 114u8, 103u8, 117u8, 109u8, 101u8, 110u8, 116u8, 115u8, 32u8, 102u8, 111u8, 114u8, 32u8, 39u8, 114u8, 112u8, 111u8, 112u8, 39u8, 32u8, 99u8, 111u8, 109u8, 109u8, 97u8, 110u8, 100u8];
    proof {
        assert(v@ =~= wrong_args_rpop_text());
    }
    v
}

/// `"ERR wrong number of arguments for 'lrange' command"`
pub open spec fn wrong_args_lrange_text() -> Seq<u8> {
    seq![69u8, 82u8, 82u8, 32u8, 119u8, 114u8, 111u8, 110u8, 103u8, 32u8, 110u8, 117u8, 109u8, 98u8, 101u8, 114u8, 32u8, 111u8, 102u8, 32u8, 97u8, 114u8, 103u8, 117u8, 109u8, 101u8, 110u8, 116u8, 115u8, 32u8, 102u8, 111u8, 114u8, 32u8, 39u8, 108u8, 114u8, 97u8, 110u8, 103u8, 101u8, 39u8, 32u8, 99u8, 111u8, 109u8, 109u8, 97u8, 110u8, 100u8]
}

pub fn wrong_args_lrange_bytes() -> (r: Vec<u8>)
    ensures
        r@ == wrong_args_lrange_text(),
{
    let v: Vec<u8> = vec![69u8, 82u8, 82u8, 32u8, 119u8, 114u8, 111u8, 110u8, 103u8, 32u8, 110u8, 117u8, 109u8, 98u8, 101u8, 114u8, 32u8, 111u8, 102u8, 32u8, 97u8, 114u8, 103u8, 117u8, 109u8, 101u8, 110u8, 116u8, 115u8, 32u8, 102u8, 111u8, 114u8, 32u8, 39u8, 108u8, 114u8, 97u8, 110u8, 103u8, 101u8, 39u8, 32u8, 99u8, 111u8, 109u8, 109u8, 97u8, 110u8, 100u8];
    proof {
        assert(v@ =~= wrong_args_lrange_text());
    }
    v
}

/// `"ERR wrong number of arguments for 'sadd' command"`
pub open spec fn wrong_args_sadd_text() -> Seq<u8> {
    seq![69u8, 82u8, 82u8, 32u8, 119u8, 114u8, 111u8, 110u8, 103u8, 32u8, 110u8, 117u8, 109u8, 98u8, 101u8, 114u8, 32u8, 111u8, 102u8, 32u8, 97u8, 114u8, 103u8, 117u8, 109u8, 101u8, 110u8, 116u8, 115u8, 32u8, 102u8, 111u8, 114u8, 32u8, 39u8, 115u8, 97u8, 100u8, 100u8, 39u8, 32u8, 99u8, 111u8, 109u8, 109u8, 97u8, 110u8, 100u8]
}

pub fn wrong_args_sadd_bytes() -> (r: Vec<u8>)
    ensures
        r@ == wrong_args_sadd_text(),
{
    let v: Vec<u8> = vec![69u8, 82u8, 82u8, 32u8, 119u8, 114u8, 111u8, 110u8, 103u8, 32u8, 110u8, 117u8, 109u8, 98u8, 101u8, 114u8, 32u8, 111u8, 102u8, 32u8, 97u8, 114u8, 103u8, 117u8, 109u8, 101u8, 110u8, 116u8, 115u8, 32u8, 102u8, 111u8, 114u8, 32u8, 39u8, 115u8, 97u8, 100u8, 100u8, 39u8, 32u8, 99u8, 111u8, 109u8, 109u8, 97u8, 110u8, 100u8];
    proof {
        assert(v@ =~= wrong_args_sadd_text());
    }
    v
}

/// `"ERR wrong number of arguments for 'spop' command"`
pub open spec fn wrong_args_spop_text() -> Seq<u8> {
    seq![69u8, 82u8, 82u8, 32u8, 119u8, 114u8, 111u8, 110u8, 103u8, 32u8, 110u8, 117u8, 109u8, 98u8, 101u8, 114u8, 32u8, 111u8, 102u8, 32u8, 97u8, 114u8, 103u8, 117u8, 109u8, 101u8, 110u8, 116u8, 115u8, 32u8, 102u8, 111u8, 114u8, 32u8, 39u8, 115u8, 112u8, 111u8, 112u8, 39u8, 32u8, 99u8, 111u8, 109u8, 109u8, 97u8, 110u8, 100u8]
}

pub fn wrong_args_spop_bytes() -> (r: Vec<u8>)
    ensures
        r@ == wrong_args_spop_text(),
{
    let v: Vec<u8> = vec![69u8, 82u8, 82u8, 32u8, 119u8, 114u8, 111u8, 110u8, 103u8, 32u8, 110u8, 117u8, 109u8, 98u8, 101u8, 114u8, 32u8, 111u8, 102u8, 32u8, 97u8, 114u8, 103u8, 117u8, 109u8, 101u8, 110u8, 116u8, 115u8, 32u8, 102u8, 111u8, 114u8, 32u8, 39u8, 115u8, 112u8, 111u8, 112u8, 39u8, 32u8, 99u8, 111u8, 109u8, 109u8, 97u8, 110u8, 100u8];
    proof {
        assert(v@ =~= wrong_args_spop_text());
    }
    v
}

/// `"ERR wrong number of arguments for 'smembers' command"`
pub open spec fn wrong_args_smembers_text() -> Seq<u8> {
    seq![69u8, 82u8, 82u8, 32u8, 119u8, 114u8, 111u8, 110u8, 103u8, 32u8, 110u8, 117u8, 109u8, 98u8, 101u8, 114u8, 32u8, 111u8, 102u8, 32u8, 97u8, 114u8, 103u8, 117u8, 109u8, 101u8, 110u8, 116u8, 115u8, 32u8, 102u8, 111u8, 114u8, 32u8, 39u8, 115u8, 109u8, 101u8, 109u8, 98u8, 101u8, 114u8, 115u8, 39u8, 32u8, 99u8, 111u8, 109u8, 109u8, 97u8, 110u8, 100u8]
}

pub fn wrong_args_smembers_bytes() -> (r: Vec<u8>)
    ensures
        r@ == wrong_args_smembers_text(),
{
    let v: Vec<u8> = vec![69u8, 82u8, 82u8, 32u8, 119u8, 114u8, 111u8, 110u8, 103u8, 32u8, 110u8, 117u8, 109u8, 98u8, 101u8, 114u8, 32u8, 111u8, 102u8, 32u8, 97u8, 114u8, 103u8, 117u8, 109u8, 101u8, 110u8, 116u8, 115u8, 32u8, 102u8, 111u8, 114u8, 32u8, 39u8, 115u8, 109u8, 101u8, 109u8, 98u8, 101u8, 114u8, 115u8, 39u8, 32u8, 99u8, 111u8, 109u8, 109u8, 97u8, 110u8, 100u8];
    proof {
        assert(v@ =~= wrong_args_smembers_text());
    }
    v
}

/// `"PING"`
pub open spec fn name_ping() -> Seq<u8> {
    seq![80u8, 73u8, 78u8, 71u8]
}

pub fn name_ping_bytes() -> (r: Vec<u8>)
    ensures
        r@ == name_ping(),
{
    let v: Vec<u8> = vec![80u8, 73u8, 78u8, 71u8];
    proof {
        assert(v@ =~= name_ping());
    }
    v
}

/// `"CONFIG"`
pub open spec fn name_config() -> Seq<u8> {
    seq![67u8, 79u8, 78u8, 70u8, 73u8, 71u8]
}

pub fn name_config_bytes() -> (r: Vec<u8>)
    ensures
        r@ == name_config(),
{
    let v: Vec<u8> = vec![67u8, 79u8, 78u8, 70u8, 73u8, 71u8];
    proof {
        assert(v@ =~= name_config());
    }
    v
}

/// `"GET"`
pub open spec fn name_get() -> Seq<u8> {
    seq![71u8, 69u8, 84u8]
}

pub fn name_get_bytes() -> (r: Vec<u8>)
    ensures
        r@ == name_get(),
{
    let v: Vec<u8> = vec![71u8, 69u8, 84u8];
    proof {
        assert(v@ =~= name_get());
    }
    v
}

/// `"SET"`
pub open spec fn name_set() -> Seq<u8> {
    seq![83u8, 69u8, 84u8]
}

pub fn name_set_bytes() -> (r: Vec<u8>)
    ensures
        r@ == name_set(),
{
    let v: Vec<u8> = vec![83u8, 69u8, 84u8];
    proof {
        assert(v@ =~= name_set());
    }
    v
}

/// `"LPUSH"`
pub open spec fn name_lpush() -> Seq<u8> {
    seq![76u8, 80u8, 85u8, 83u8, 72u8]
}

pub fn name_lpush_bytes() -> (r: Vec<u8>)
    ensures
        r@ == name_lpush(),
{
    let v: Vec<u8> = vec![76u8, 80u8, 85u8, 83u8, 72u8];
    proof {
        assert(v@ =~= name_lpush());
    }
    v
}

/// `"LPOP"`
pub open spec fn name_lpop() -> Seq<u8> {
    seq![76u8, 80u8, 79u8, 80u8]
}

pub fn name_lpop_bytes() -> (r: Vec<u8>)
    ensures
        r@ == name_lpop(),
{
    let v: Vec<u8> = vec![76u8, 80u8, 79u8, 80u8];
    proof {
        assert(v@ =~= name_lpop());
    }
    v
}

/// `"RPUSH"`
pub open spec fn name_rpush() -> Seq<u8> {
    seq![82u8, 80u8, 85u8, 83u8, 72u8]
}

pub fn name_rpush_bytes() -> (r: Vec<u8>)
    ensures
        r@ == name_rpush(),
{
    let v: Vec<u8> = vec![82u8, 80u8, 85u8, 83u8, 72u8];
    proof {
        assert(v@ =~= name_rpush());
    }
    v
}

/// `"RPOP"`
pub open spec fn name_rpop() -> Seq<u8> {
    seq![82u8, 80u8, 79u8, 80u8]
}

pub fn name_rpop_bytes() -> (r: Vec<u8>)
    ensures
        r@ == name_rpop(),
{
    let v: Vec<u8> = vec![82u8, 80u8, 79u8, 80u8];
    proof {
        assert(v@ =~= name_rpop());
    }
    v
}

/// `"LRANGE"`
pub open spec fn name_lrange() -> Seq<u8> {
    seq![76u8, 82u8, 65u8, 78u8, 71u8, 69u8]
}

pub fn name_lrange_bytes() -> (r: Vec<u8>)
    ensures
        r@ == name_lrange(),
{
    let v: Vec<u8> = vec![76u8, 82u8, 65u8, 78u8, 71u8, 69u8];
    proof {
        assert(v@ =~= name_lrange());
    }
    v
}

/// `"SADD"`
pub open spec fn name_sadd() -> Seq<u8> {
    seq![83u8, 65u8, 68u8, 68u8]
}

pub fn name_sadd_bytes() -> (r: Vec<u8>)
    ensures
        r@ == name_sadd(),
{
    let v: Vec<u8> = vec![83u8, 65u8, 68u8, 68u8];
    proof {
        assert(v@ =~= name_sadd());
    }
    v
}

/// `"SPOP"`
pub open spec fn name_spop() -> Seq<u8> {
    seq![83u8, 80u8, 79u8, 80u8]
}

pub fn name_spop_bytes() -> (r: Vec<u8>)
    ensures
        r@ == name_spop(),
{
    let v: Vec<u8> = vec![83u8, 80u8, 79u8, 80u8];
    proof {
        assert(v@ =~= name_spop());
    }
    v
}

/// `"SMEMBERS"`
pub open spec fn name_smembers() -> Seq<u8> {
    seq![83u8, 77u8, 69u8, 77u8, 66u8, 69u8, 82u8, 83u8]
}

pub fn name_smembers_bytes() -> (r: Vec<u8>)
    ensures
        r@ == name_smembers(),
{
    let v: Vec<u8> = vec![83u8, 77u8, 69u8, 77u8, 66u8, 69u8, 82u8, 83u8];
    proof {
        assert(v@ =~= name_smembers());
    }
    v
}

/// `"Value must be array"`
pub open spec fn value_must_be_array_text() -> Seq<u8> {
    seq![86u8, 97u8, 108u8, 117u8, 101u8, 32u8, 109u8, 117u8, 115u8, 116u8, 32u8, 98u8, 101u8, 32u8, 97u8, 114u8, 114u8, 97u8, 121u8]
}

pub fn value_must_be_array_bytes() -> (r: Vec<u8>)
    ensures
        r@ == value_must_be_array_text(),
{
    let v: Vec<u8> = vec![86u8, 97u8, 108u8, 117u8, 101u8, 32u8, 109u8, 117u8, 115u8, 116u8, 32u8, 98u8, 101u8, 32u8, 97u8, 114u8, 114u8, 97u8, 121u8];
    proof {
        assert(v@ =~= value_must_be_array_text());
    }
    v
}

} // verus!