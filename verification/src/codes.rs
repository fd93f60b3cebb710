//! Code-space generation: the ordered list of two-character cell codes built
//! from two key sets, in four phases of fixed priority.

use vstd::prelude::*;
use vstd::arithmetic::div_mod::lemma_fundamental_div_mod_converse;

use crate::errors::ConfigurationError;
use crate::strutil::spec_split_ws;
use crate::strutil::split_whitespace_vec;

verus! {

/// The two ordered key lists used to build codes: `left` supplies first
/// characters in phase one, `right` second characters.
#[derive(Debug, Clone)]
pub struct SelectedKeys {
    pub left: Vec<String>,
    pub right: Vec<String>,
}

impl SelectedKeys {
    /// Build a key set by splitting two delimiter-separated key list strings.
    pub fn new(left: &str, right: &str) -> (keys: SelectedKeys)
        ensures
            keys.left.deep_view() == spec_split_ws(left@),
            keys.right.deep_view() == spec_split_ws(right@),
    {
        let left = split_whitespace_vec(left);
        let right = split_whitespace_vec(right);
        SelectedKeys { left, right }
    }
}

impl Default for SelectedKeys {
    /// The stock ergonomic layout: left-hand keys first, right-hand keys second.
    fn default() -> (keys: SelectedKeys)
        ensures
            keys.left.deep_view() == spec_split_ws("` 1 2 3 4 5 Q W E R T A S D F G Z X C V B"@),
            keys.right.deep_view() == spec_split_ws(
                "6 7 8 9 0 - = Y U I O P [ ] H J K L ; ' N M , . /"@,
            ),
    {
        SelectedKeys::new(
            "` 1 2 3 4 5 Q W E R T A S D F G Z X C V B",
            "6 7 8 9 0 - = Y U I O P [ ] H J K L ; ' N M , . /",
        )
    }
}

/// All codes of one cross phase: first character from `xs`, second from `ys`,
/// outer loop over `xs`, inner over `ys`.
pub open spec fn cross_codes(xs: Seq<Seq<char>>, ys: Seq<Seq<char>>) -> Seq<Seq<char>> {
    Seq::new(
        xs.len() * ys.len(),
        |k: int| xs[k / ys.len() as int] + ys[k % ys.len() as int],
    )
}

/// Maps the position of a second-character choice back to a key index when the
/// index equal to `i` is skipped.
pub open spec fn skip_equal(i: int, jj: int) -> int {
    if jj < i {
        jj
    } else {
        jj + 1
    }
}

/// All codes of one same-set phase: both characters from `xs`, pairs with
/// equal indices excluded, outer loop over the first index.
pub open spec fn self_codes(xs: Seq<Seq<char>>) -> Seq<Seq<char>> {
    Seq::new(
        (xs.len() * (xs.len() - 1)) as nat,
        |k: int| xs[k / (xs.len() - 1)] + xs[skip_equal(k / (xs.len() - 1), k % (xs.len() - 1))],
    )
}

/// The full pre-truncation code sequence: phases one to four concatenated in
/// fixed priority order.
pub open spec fn all_codes(left: Seq<Seq<char>>, right: Seq<Seq<char>>) -> Seq<Seq<char>> {
    cross_codes(left, right) + cross_codes(right, left) + self_codes(left) + self_codes(right)
}

/// For key set sizes `n` and `m`, the pre-truncation code count is exactly
/// `n*m + m*n + n*(n-1) + m*(m-1)`, and the phases stand in order one to four.
pub proof fn lemma_code_space_size(left: Seq<Seq<char>>, right: Seq<Seq<char>>)
    ensures
        all_codes(left, right).len() == left.len() * right.len() + right.len() * left.len()
            + left.len() * (left.len() - 1) + right.len() * (right.len() - 1),
        all_codes(left, right) == cross_codes(left, right) + cross_codes(right, left)
            + self_codes(left) + self_codes(right),
{
}

/// Append every code of one cross phase to `tokens`.
fn push_cross(tokens: &mut Vec<String>, xs: &Vec<String>, ys: &Vec<String>)
    ensures
        final(tokens).deep_view() == old(tokens).deep_view() + cross_codes(
            xs.deep_view(),
            ys.deep_view(),
        ),
{
    let ghost base = tokens.deep_view();
    let ghost xv = xs.deep_view();
    let ghost yv = ys.deep_view();
    let ghost cross = cross_codes(xv, yv);
    let n = xs.len();
    let m = ys.len();
    let mut i: usize = 0;
    while i < n
        invariant
            i <= n,
            n == xv.len(),
            m == yv.len(),
            xv == xs.deep_view(),
            yv == ys.deep_view(),
            cross == cross_codes(xv, yv),
            0 <= i as int * m as int <= cross.len(),
            tokens.deep_view() == base + cross.take(i as int * m as int),
        decreases n - i,
    {
        let mut j: usize = 0;
        while j < m
            invariant
                i < n,
                j <= m,
                n == xv.len(),
                m == yv.len(),
                xv == xs.deep_view(),
                yv == ys.deep_view(),
                cross == cross_codes(xv, yv),
                0 <= i as int * m as int + j as int <= cross.len(),
                tokens.deep_view() == base + cross.take(i as int * m as int + j as int),
            decreases m - j,
        {
            let token = xs[i].clone().concat(ys[j].as_str());
            let ghost pre = tokens@;
            let ghost predv = tokens.deep_view();
            tokens.push(token);
            proof {
                let k = i as int * m as int + j as int;
                assert(predv == base + cross.take(k));
                assert(predv.len() == pre.len());
                assert(tokens@ == pre.push(token));
                lemma_fundamental_div_mod_converse(k, m as int, i as int, j as int);
                assert(k + 1 <= cross.len()) by (nonlinear_arith)
                    requires
                        0 <= i < n,
                        0 <= j < m,
                        cross.len() == n as int * m as int,
                        k == i as int * m as int + j as int,
                ;
                assert(cross[k] == xv[i as int] + yv[j as int]);
                let dv = tokens.deep_view();
                assert(dv[base.len() + k] == xv[i as int] + yv[j as int]);
                assert forall|l: int| 0 <= l < base.len() + k implies dv[l] == predv[l] by {
                    assert(dv[l] == tokens@[l].deep_view());
                    assert(predv[l] == pre[l].deep_view());
                }
                assert(tokens.deep_view() =~~= base + cross.take(k + 1));
            }
            j = j + 1;
        }
        proof {
            assert(i as int * m as int + m as int == (i + 1) as int * m as int)
                by (nonlinear_arith);
        }
        i = i + 1;
    }
    proof {
        assert(cross.take(n as int * m as int) =~~= cross);
    }
}

/// Append every code of one same-set phase to `tokens`.
fn push_self_pairs(tokens: &mut Vec<String>, xs: &Vec<String>)
    ensures
        final(tokens).deep_view() == old(tokens).deep_view() + self_codes(xs.deep_view()),
{
    let ghost base = tokens.deep_view();
    let ghost xv = xs.deep_view();
    let ghost sc = self_codes(xv);
    let n = xs.len();
    let mut i: usize = 0;
    while i < n
        invariant
            i <= n,
            n == xv.len(),
            xv == xs.deep_view(),
            sc == self_codes(xv),
            0 <= i as int * (n as int - 1) <= sc.len(),
            tokens.deep_view() == base + sc.take(i as int * (n as int - 1)),
        decreases n - i,
    {
        let mut j: usize = 0;
        while j < n
            invariant
                i < n,
                j <= n,
                n == xv.len(),
                xv == xs.deep_view(),
                sc == self_codes(xv),
                0 <= i as int * (n as int - 1) + row_count(i as int, j as int) <= sc.len(),
                tokens.deep_view() == base + sc.take(
                    i as int * (n as int - 1) + row_count(i as int, j as int),
                ),
            decreases n - j,
        {
            if i != j {
                let token = xs[i].clone().concat(xs[j].as_str());
                let ghost pre = tokens@;
                let ghost predv = tokens.deep_view();
                tokens.push(token);
                proof {
                    let d = n as int - 1;
                    let c = row_count(i as int, j as int);
                    let k = i as int * d + c;
                    assert(predv == base + sc.take(k));
                    assert(predv.len() == pre.len());
                    assert(tokens@ == pre.push(token));
                    assert(0 <= c < d);
                    lemma_fundamental_div_mod_converse(k, d, i as int, c);
                    assert(k + 1 <= sc.len()) by (nonlinear_arith)
                        requires
                            0 <= i < n,
                            0 <= c < d,
                            d == n as int - 1,
                            sc.len() == n as int * d,
                            k == i as int * d + c,
                    ;
                    assert(skip_equal(i as int, c) == j as int);
                    assert(sc[k] == xv[i as int] + xv[j as int]);
                    let dv = tokens.deep_view();
                    assert(dv[base.len() + k] == xv[i as int] + xv[j as int]);
                    assert forall|l: int| 0 <= l < base.len() + k implies dv[l] == predv[l] by {
                        assert(dv[l] == tokens@[l].deep_view());
                        assert(predv[l] == pre[l].deep_view());
                    }
                    assert(tokens.deep_view() =~~= base + sc.take(k + 1));
                    assert(row_count(i as int, j as int + 1) == c + 1);
                }
            }
            j = j + 1;
        }
        proof {
            assert(row_count(i as int, n as int) == n as int - 1);
            assert(i as int * (n as int - 1) + (n as int - 1) == (i + 1) as int * (n as int - 1))
                by (nonlinear_arith);
        }
        i = i + 1;
    }
    proof {
        assert(sc.take(n as int * (n as int - 1)) =~~= sc);
    }
}

/// How many pairs a same-set phase has produced within row `i` once the inner
/// loop has passed index `j`: one per index other than `i`.
pub open spec fn row_count(i: int, j: int) -> int {
    if j <= i {
        j
    } else {
        j - 1
    }
}

/// Generate the ordered code list for `total` cells: phases one to four
/// concatenated, then truncated to the leading `total` codes. Fails exactly
/// when the four phases together yield fewer than `total` codes.
pub fn generate_token_list(total: usize, keys: &SelectedKeys) -> (r: Result<
    Vec<String>,
    ConfigurationError,
>)
    ensures
        r is Ok <==> total as int <= all_codes(keys.left.deep_view(), keys.right.deep_view()).len(),
        (r matches Ok(tokens) ==> tokens.deep_view() == all_codes(
            keys.left.deep_view(),
            keys.right.deep_view(),
        ).take(total as int)),
        (r matches Err(e) ==> e == ConfigurationError::InsufficientCodeSpace),
{
    let ghost lv = keys.left.deep_view();
    let ghost rv = keys.right.deep_view();
    let mut tokens: Vec<String> = Vec::new();
    push_cross(&mut tokens, &keys.left, &keys.right);
    push_cross(&mut tokens, &keys.right, &keys.left);
    push_self_pairs(&mut tokens, &keys.left);
    push_self_pairs(&mut tokens, &keys.right);
    proof {
        assert(tokens.deep_view() =~~= all_codes(lv, rv));
    }
    if tokens.len() < total {
        return Err(ConfigurationError::InsufficientCodeSpace);
    }
    tokens.truncate(total);
    proof {
        assert(tokens.deep_view() =~~= all_codes(lv, rv).take(total as int));
    }
    Ok(tokens)
}

} // verus!
