//! What the platform tells the service registry and asks it for.
use vstd::prelude::*;

use crate::common::config::Server;

verus! {

/// The name the platform registers under and reads its configuration by.
pub const APP_NAME: &'static str = "bees";

/// A service instance to register.
#[derive(Debug, Clone)]
pub struct RegisterService {
    pub name: String,
    pub ip: String,
    pub port: i32,
}

/// The data id of a configuration: the name with `.yaml` after it.
pub fn config_data_id(name: &str) -> (r: String)
    ensures
        r@ == name@ + ".yaml"@,
{
    let mut r = String::from_str(name);
    r.append(".yaml");
    r
}

/// The registry URL from the `user:password@host:port/namespace` setting.
pub fn nacos_url(setting: &str) -> (r: String)
    ensures
        r@ == "http://"@ + setting@,
{
    let mut r = String::from_str("http://");
    r.append(setting);
    r
}

pub open spec fn is_digit(c: char) -> bool {
    '0' <= c && c <= '9'
}

/// The value of a string of decimal digits.
pub open spec fn digits_value(s: Seq<char>) -> nat
    decreases s.len(),
{
    if s.len() == 0 {
        0
    } else {
        digits_value(s.drop_last()) * 10 + ((s.last() as int) - ('0' as int)) as nat
    }
}

/// The digits after an optional sign.
pub open spec fn unsigned_part(s: Seq<char>) -> Seq<char> {
    if s.len() > 0 && (s[0] == '-' || s[0] == '+') {
        s.drop_first()
    } else {
        s
    }
}

/// What `str::parse::<i32>` accepts: an optional `+` or `-`, then one or more
/// decimal digits whose value, with the sign, fits in an `i32`.
pub open spec fn parsed_i32(s: Seq<char>) -> Option<i32> {
    let ds = unsigned_part(s);
    let neg = s.len() > 0 && s[0] == '-';
    if ds.len() == 0 || !(forall|i: int| 0 <= i < ds.len() ==> is_digit(#[trigger] ds[i])) {
        None
    } else {
        let v: int = if neg {
            -(digits_value(ds) as int)
        } else {
            digits_value(ds) as int
        };
        if i32::MIN <= v && v <= i32::MAX {
            Some(v as i32)
        } else {
            None
        }
    }
}

proof fn lemma_digits_value_grows(s: Seq<char>, c: char)
    requires
        is_digit(c),
    ensures
        digits_value(s.push(c)) >= digits_value(s),
{
    assert(s.push(c).drop_last() =~= s);
}

/// `s.parse::<i32>().ok()`.
pub fn parse_i32(s: &str) -> (r: Option<i32>)
    ensures
        r == parsed_i32(s@),
{
    let n = s.unicode_len();
    let mut start: usize = 0;
    let mut neg = false;
    if n > 0 {
        let c0 = s.get_char(0);
        if c0 == '-' {
            start = 1;
            neg = true;
        } else if c0 == '+' {
            start = 1;
        }
    }
    let ghost ds = unsigned_part(s@);
    assert(ds =~= s@.subrange(start as int, n as int));
    if start == n {
        return None;
    }
    let mut acc: u64 = 0;
    let mut over = false;
    let mut i: usize = start;
    while i < n
        invariant
            n == s@.len(),
            start <= i <= n,
            ds == s@.subrange(start as int, n as int),
            ds == unsigned_part(s@),
            neg == (s@.len() > 0 && s@[0] == '-'),
            forall|j: int| start <= j < i ==> is_digit(#[trigger] s@[j]),
            !over ==> acc == digits_value(s@.subrange(start as int, i as int)) && acc
                <= 21474836489u64,
            over ==> digits_value(s@.subrange(start as int, i as int)) > 2147483648,
        decreases n - i,
    {
        let c = s.get_char(i);
        if !(c >= '0' && c <= '9') {
            assert(ds[i - start] == c);
            assert(!is_digit(ds[i - start]));
            return None;
        }
        let ghost prev = s@.subrange(start as int, i as int);
        assert(s@.subrange(start as int, (i + 1) as int) =~= prev.push(c));
        assert(prev.push(c).drop_last() =~= prev);
        proof {
            lemma_digits_value_grows(prev, c);
        }
        if !over {
            if acc > 2147483648 {
                over = true;
            } else {
                let d: u64 = (c as u32 - '0' as u32) as u64;
                acc = acc * 10 + d;
            }
        }
        i = i + 1;
    }
    assert forall|j: int| 0 <= j < ds.len() implies is_digit(#[trigger] ds[j]) by {
        assert(ds[j] == s@[j + start]);
    }
    if over {
        return None;
    }
    if neg {
        if acc > 2147483648 {
            None
        } else {
            let v: i64 = 0 - (acc as i64);
            Some(v as i32)
        }
    } else {
        if acc > 2147483647 {
            None
        } else {
            Some(acc as i32)
        }
    }
}

/// The instance this platform registers: its address, with the port read as a
/// number; `None` when the configured port is not an `i32`.
pub fn register_service(server: &Server) -> (r: Option<RegisterService>)
    ensures
        match r {
            Some(svc) => {
                &&& svc.name@ == APP_NAME@
                &&& svc.ip@ == server.ip@
                &&& parsed_i32(server.port@) == Some(svc.port)
            },
            None => parsed_i32(server.port@) is None,
        },
{
    match parse_i32(server.port.as_str()) {
        Some(port) => Some(
            RegisterService { name: String::from_str(APP_NAME), ip: server.ip.clone(), port },
        ),
        None => None,
    }
}

} // verus!
