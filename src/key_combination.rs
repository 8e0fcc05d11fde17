use vstd::prelude::*;
use std::collections::HashSet;
use crate::config::Action;
use crate::text::{
    chars_of, decimal, free_of, is_word, join_with, lemma_decimal_parses, lemma_split_join,
    lemma_split_len, parse_id, parse_id_chars, push_decimal, split_chars, split_on,
    string_from_chars,
};

verus! {

broadcast use vstd::std_specs::hash::group_hash_axioms;

/// A binding trigger: an action together with the buttons that must be held
/// as modifiers. `None` and `Some` of an empty set are different triggers.
#[derive(Debug, Clone)]
pub struct KeyCombination {
    pub modifiers: Option<HashSet<u8>>,
    pub action: Action,
}

/// Why a key combination has no text form, or a text is no key combination.
#[derive(Clone, Copy, Debug, PartialEq, Eq, Structural)]
pub enum KeyCombinationError {
    /// The action is a release or no event, or the last token names no
    /// action.
    InvalidAction,
    /// A token before the last is not `BTN_<id>`.
    InvalidKey,
}

/// What a key combination means: the modifier set, if any, and the action.
pub struct KeyCombinationView {
    pub modifiers: Option<Set<u8>>,
    pub action: Action,
}

impl View for KeyCombination {
    type V = KeyCombinationView;

    open spec fn view(&self) -> KeyCombinationView {
        KeyCombinationView {
            modifiers: match self.modifiers {
                Some(m) => Some(m@),
                None => None,
            },
            action: self.action,
        }
    }
}

pub open spec fn btn_token(id: u8) -> Seq<char> {
    seq!['B', 'T', 'N', '_'] + decimal(id)
}

pub open spec fn enc_token(id: u8, increment: bool) -> Seq<char> {
    seq!['E', 'N', 'C', '_'] + decimal(id) + if increment {
        seq!['_', 'I', 'N', 'C']
    } else {
        seq!['_', 'D', 'E', 'C']
    }
}

/// The token of a bindable action; releases and `NoEvent` have none.
pub open spec fn action_token(a: Action) -> Option<Seq<char>> {
    match a {
        Action::ButtonPress { id } => Some(btn_token(id)),
        Action::EncoderIncrement { id } => Some(enc_token(id, true)),
        Action::EncoderDecrement { id } => Some(enc_token(id, false)),
        _ => None,
    }
}

/// The members of `m` below `n`, ascending.
pub open spec fn ids_below(m: Set<u8>, n: nat) -> Seq<u8>
    decreases n,
{
    if n == 0 {
        seq![]
    } else {
        let k = (n - 1) as nat;
        ids_below(m, k) + if m.contains(k as u8) {
            seq![k as u8]
        } else {
            seq![]
        }
    }
}

/// `BTN_<id>+` for each id in turn.
pub open spec fn modifier_prefix(ids: Seq<u8>) -> Seq<char>
    decreases ids.len(),
{
    if ids.len() == 0 {
        seq![]
    } else {
        modifier_prefix(ids.drop_last()) + btn_token(ids.last()) + seq!['+']
    }
}

/// The canonical text of a key combination: its modifiers ascending, each as
/// `BTN_<id>+`, then the action's token. `None` where the action has no token.
pub open spec fn encode_combination(k: KeyCombinationView) -> Option<Seq<char>> {
    match action_token(k.action) {
        None => None,
        Some(t) => Some(
            match k.modifiers {
                None => t,
                Some(m) => modifier_prefix(ids_below(m, 256)) + t,
            },
        ),
    }
}

/// The action a token names: `BTN_<id>`, `ENC_<id>_INC` or `ENC_<id>_DEC`.
pub open spec fn parse_action(t: Seq<char>) -> Option<Action> {
    let parts = split_on(t, '_');
    if parts.len() == 2 && parts[0] == seq!['B', 'T', 'N'] {
        match parse_id(parts[1]) {
            Some(id) => Some(Action::ButtonPress { id }),
            None => None,
        }
    } else if parts.len() == 3 && parts[0] == seq!['E', 'N', 'C'] && parts[2] == seq![
        'D',
        'E',
        'C',
    ] {
        match parse_id(parts[1]) {
            Some(id) => Some(Action::EncoderDecrement { id }),
            None => None,
        }
    } else if parts.len() == 3 && parts[0] == seq!['E', 'N', 'C'] && parts[2] == seq![
        'I',
        'N',
        'C',
    ] {
        match parse_id(parts[1]) {
            Some(id) => Some(Action::EncoderIncrement { id }),
            None => None,
        }
    } else {
        None
    }
}

/// The button a modifier token `BTN_<id>` names.
pub open spec fn parse_modifier(t: Seq<char>) -> Option<u8> {
    let parts = split_on(t, '_');
    if parts.len() == 2 && parts[0] == seq!['B', 'T', 'N'] {
        parse_id(parts[1])
    } else {
        None
    }
}

/// The set of buttons the tokens name, or `None` if one names none.
pub open spec fn collect_modifiers(tokens: Seq<Seq<char>>) -> Option<Set<u8>>
    decreases tokens.len(),
{
    if tokens.len() == 0 {
        Some(Set::empty())
    } else {
        match (collect_modifiers(tokens.drop_last()), parse_modifier(tokens.last())) {
            (Some(s), Some(id)) => Some(s.insert(id)),
            _ => None,
        }
    }
}

/// Reads a key combination from text: the tokens between `+` are modifiers
/// in any order, the last token is the action. With no `+` the modifiers are
/// `None`.
pub open spec fn decode_combination(s: Seq<char>) -> Result<KeyCombinationView, KeyCombinationError> {
    let keys = split_on(s, '+');
    let n = keys.len();
    match parse_action(keys[n - 1]) {
        None => Err(KeyCombinationError::InvalidAction),
        Some(action) => if n == 1 {
            Ok(KeyCombinationView { modifiers: None, action })
        } else {
            match collect_modifiers(keys.subrange(0, n - 1)) {
                None => Err(KeyCombinationError::InvalidKey),
                Some(m) => Ok(KeyCombinationView { modifiers: Some(m), action }),
            }
        },
    }
}

fn parse_action_chars(t: &Vec<char>) -> (r: Option<Action>)
    ensures
        r == parse_action(t@),
{
    let parts = split_chars(t, '_');
    assert(parts.len() >= 2 ==> parts[0]@ == split_on(t@, '_')[0] && parts[1]@ == split_on(t@, '_')[1]);
    if parts.len() == 2 && is_word(&parts[0], 'B', 'T', 'N') {
        match parse_id_chars(&parts[1]) {
            Some(id) => Some(Action::ButtonPress { id }),
            None => None,
        }
    } else if parts.len() == 3 && is_word(&parts[0], 'E', 'N', 'C') {
        assert(parts[2]@ == split_on(t@, '_')[2]);
        if is_word(&parts[2], 'D', 'E', 'C') {
            match parse_id_chars(&parts[1]) {
                Some(id) => Some(Action::EncoderDecrement { id }),
                None => None,
            }
        } else if is_word(&parts[2], 'I', 'N', 'C') {
            match parse_id_chars(&parts[1]) {
                Some(id) => Some(Action::EncoderIncrement { id }),
                None => None,
            }
        } else {
            None
        }
    } else {
        None
    }
}

fn parse_modifier_chars(t: &Vec<char>) -> (r: Option<u8>)
    ensures
        r == parse_modifier(t@),
{
    let parts = split_chars(t, '_');
    assert(parts.len() >= 2 ==> parts[0]@ == split_on(t@, '_')[0] && parts[1]@ == split_on(t@, '_')[1]);
    if parts.len() == 2 && is_word(&parts[0], 'B', 'T', 'N') {
        parse_id_chars(&parts[1])
    } else {
        None
    }
}

proof fn lemma_collect_fails_on(tokens: Seq<Seq<char>>, i: int)
    requires
        0 <= i <= tokens.len(),
        collect_modifiers(tokens.subrange(0, i)) is None,
    ensures
        collect_modifiers(tokens) is None,
    decreases tokens.len() - i,
{
    if i < tokens.len() {
        assert(tokens.subrange(0, i + 1).drop_last() =~= tokens.subrange(0, i));
        lemma_collect_fails_on(tokens, i + 1);
    } else {
        assert(tokens.subrange(0, i) =~= tokens);
    }
}

fn push_btn_token(out: &mut Vec<char>, id: u8)
    ensures
        final(out)@ == old(out)@ + btn_token(id),
{
    out.push('B');
    out.push('T');
    out.push('N');
    out.push('_');
    push_decimal(out, id);
    assert(final(out)@ =~= old(out)@ + btn_token(id));
}

impl KeyCombination {
    /// The canonical text form: modifiers ascending as `BTN_<id>+`, then
    /// `BTN_<id>`, `ENC_<id>_INC` or `ENC_<id>_DEC`. A release or `NoEvent`
    /// has no text form.
    pub fn serialize(&self) -> (r: Result<String, KeyCombinationError>)
        ensures
            match encode_combination(self@) {
                Some(t) => r matches Ok(s) && s@ == t,
                None => r == Err::<String, KeyCombinationError>(KeyCombinationError::InvalidAction),
            },
    {
        match self.action {
            Action::ButtonRelease { .. } | Action::NoEvent => {
                return Err(KeyCombinationError::InvalidAction);
            },
            _ => {},
        }
        let mut out: Vec<char> = Vec::new();
        if let Some(m) = &self.modifiers {
            let mut id: u16 = 0;
            while id < 256
                invariant
                    id <= 256,
                    out@ == modifier_prefix(ids_below(m@, id as nat)),
                decreases 256 - id,
            {
                let ghost before = ids_below(m@, id as nat);
                if m.contains(&(id as u8)) {
                    push_btn_token(&mut out, id as u8);
                    out.push('+');
                    assert(ids_below(m@, (id + 1) as nat) =~= before.push(id as u8));
                    assert(before.push(id as u8).drop_last() =~= before);
                } else {
                    assert(ids_below(m@, (id + 1) as nat) =~= before);
                }
                id = id + 1;
            }
        }
        let ghost prefix = out@;
        match self.action {
            Action::ButtonPress { id } => {
                push_btn_token(&mut out, id);
            },
            Action::EncoderIncrement { id } => {
                out.push('E');
                out.push('N');
                out.push('C');
                out.push('_');
                push_decimal(&mut out, id);
                out.push('_');
                out.push('I');
                out.push('N');
                out.push('C');
                assert(out@ =~= prefix + enc_token(id, true));
            },
            Action::EncoderDecrement { id } => {
                out.push('E');
                out.push('N');
                out.push('C');
                out.push('_');
                push_decimal(&mut out, id);
                out.push('_');
                out.push('D');
                out.push('E');
                out.push('C');
                assert(out@ =~= prefix + enc_token(id, false));
            },
            _ => {},
        }
        if self.modifiers.is_none() {
            assert(out@ =~= encode_combination(self@)->0);
        }
        Ok(string_from_chars(&out))
    }

    /// Reads a key combination from its text form, as
    /// [`decode_combination`] says: modifiers in any order and any number,
    /// the action last.
    pub fn deserialize(s: &str) -> (r: Result<KeyCombination, KeyCombinationError>)
        ensures
            match decode_combination(s@) {
                Ok(v) => r matches Ok(k) && k@ == v,
                Err(e) => r matches Err(e2) && e2 == e,
            },
    {
        let chars = chars_of(s);
        let keys = split_chars(&chars, '+');
        let ghost pieces = split_on(s@, '+');
        proof {
            lemma_split_len(s@, '+');
        }
        let n = keys.len();
        assert(keys[n - 1]@ == pieces[n - 1]);
        let action = match parse_action_chars(&keys[n - 1]) {
            Some(a) => a,
            None => {
                return Err(KeyCombinationError::InvalidAction);
            },
        };
        if n == 1 {
            return Ok(KeyCombination { modifiers: None, action });
        }
        let ghost tokens = pieces.subrange(0, n - 1);
        let mut modifiers: HashSet<u8> = HashSet::new();
        let mut i: usize = 0;
        while i < n - 1
            invariant
                n == keys.len(),
                n == pieces.len(),
                n > 1,
                pieces == split_on(s@, '+'),
                parse_action(pieces[n - 1]) == Some(action),
                i <= n - 1,
                tokens == pieces.subrange(0, n - 1),
                forall|k: int| 0 <= k < n ==> (#[trigger] keys[k])@ == pieces[k],
                collect_modifiers(tokens.subrange(0, i as int)) == Some(modifiers@),
            decreases n - 1 - i,
        {
            assert(tokens.subrange(0, i + 1).drop_last() =~= tokens.subrange(0, i as int));
            assert(tokens.subrange(0, i + 1).last() == keys[i as int]@);
            match parse_modifier_chars(&keys[i]) {
                Some(id) => {
                    modifiers.insert(id);
                },
                None => {
                    assert(collect_modifiers(tokens.subrange(0, i + 1)) is None);
                    proof {
                        lemma_collect_fails_on(tokens, i + 1);
                    }
                    return Err(KeyCombinationError::InvalidKey);
                },
            }
            i = i + 1;
        }
        assert(tokens.subrange(0, n - 1) =~= tokens);
        Ok(KeyCombination { modifiers: Some(modifiers), action })
    }
}

/// Whether two optional modifier sets are the same: both absent, or both
/// present with the same members.
fn same_modifiers(a: &Option<HashSet<u8>>, b: &Option<HashSet<u8>>) -> (r: bool)
    ensures
        r == (match (*a, *b) {
            (None, None) => true,
            (Some(x), Some(y)) => x@ == y@,
            _ => false,
        }),
{
    match (a, b) {
        (None, None) => true,
        (Some(x), Some(y)) => {
            let mut id: u16 = 0;
            while id < 256
                invariant
                    id <= 256,
                    *a == Some(*x),
                    *b == Some(*y),
                    forall|k: u8| (k as int) < id ==> (x@.contains(k) == y@.contains(k)),
                decreases 256 - id,
            {
                if x.contains(&(id as u8)) != y.contains(&(id as u8)) {
                    assert(x@.contains(id as u8) != y@.contains(id as u8));
                    return false;
                }
                id = id + 1;
            }
            assert(x@ =~= y@);
            true
        },
        _ => false,
    }
}

impl PartialEq for KeyCombination {
    fn eq(&self, other: &KeyCombination) -> (r: bool) {
        same_modifiers(&self.modifiers, &other.modifiers) && self.action == other.action
    }
}

impl vstd::std_specs::cmp::PartialEqSpecImpl for KeyCombination {
    open spec fn obeys_eq_spec() -> bool {
        true
    }

    open spec fn eq_spec(&self, other: &KeyCombination) -> bool {
        self@ == other@
    }
}

impl Eq for KeyCombination {}

/// The modifier tokens `BTN_<id>` of `ids`, in order.
pub open spec fn btn_tokens(ids: Seq<u8>) -> Seq<Seq<char>> {
    Seq::new(ids.len(), |i: int| btn_token(ids[i]))
}

proof fn lemma_prefix_join(ids: Seq<u8>, t: Seq<char>)
    ensures
        modifier_prefix(ids) + t == join_with(btn_tokens(ids).push(t), '+'),
    decreases ids.len(),
{
    let toks = btn_tokens(ids);
    if ids.len() == 0 {
        assert(toks.push(t) =~= seq![t]);
        assert(modifier_prefix(ids) + t =~= t);
    } else {
        let init = ids.drop_last();
        let x = ids.last();
        lemma_prefix_join(init, btn_token(x));
        assert(btn_tokens(init).push(btn_token(x)) =~= toks);
        assert(toks.push(t).drop_last() =~= toks);
        assert(modifier_prefix(ids) + t =~= (modifier_prefix(init) + btn_token(x)).push('+') + t);
    }
}

proof fn lemma_btn_token(id: u8)
    ensures
        free_of(btn_token(id), '+'),
        parse_modifier(btn_token(id)) == Some(id),
        parse_action(btn_token(id)) == Some(Action::ButtonPress { id }),
{
    lemma_decimal_parses(id);
    let d = decimal(id);
    let word = seq!['B', 'T', 'N'];
    let parts = seq![word, d];
    assert(parts.drop_last() =~= seq![word]);
    assert(join_with(seq![word], '_') == word);
    assert(join_with(parts, '_') == join_with(parts.drop_last(), '_').push('_') + d);
    assert(join_with(parts, '_') =~= btn_token(id));
    assert(free_of(parts[0], '_'));
    assert(free_of(parts[1], '_'));
    lemma_split_join(parts, '_');
}

proof fn lemma_enc_token(id: u8, increment: bool)
    ensures
        free_of(enc_token(id, increment), '+'),
        parse_action(enc_token(id, increment)) == Some(
            if increment {
                Action::EncoderIncrement { id }
            } else {
                Action::EncoderDecrement { id }
            },
        ),
{
    lemma_decimal_parses(id);
    let d = decimal(id);
    let word = seq!['E', 'N', 'C'];
    let dir = if increment {
        seq!['I', 'N', 'C']
    } else {
        seq!['D', 'E', 'C']
    };
    let parts = seq![word, d, dir];
    assert(parts.drop_last() =~= seq![word, d]);
    assert(seq![word, d].drop_last() =~= seq![word]);
    assert(join_with(seq![word], '_') == word);
    assert(join_with(seq![word, d], '_') == word.push('_') + d);
    assert(join_with(parts, '_') == join_with(seq![word, d], '_').push('_') + dir);
    assert(join_with(parts, '_') =~= enc_token(id, increment));
    assert(free_of(parts[0], '_'));
    assert(free_of(parts[1], '_'));
    assert(free_of(parts[2], '_'));
    lemma_split_join(parts, '_');
}

proof fn lemma_collect_ids(m: Set<u8>, n: nat)
    requires
        n <= 256,
    ensures
        collect_modifiers(btn_tokens(ids_below(m, n))) == Some(
            Set::new(|x: u8| (x as nat) < n && m.contains(x)),
        ),
    decreases n,
{
    let target = Set::new(|x: u8| (x as nat) < n && m.contains(x));
    if n == 0 {
        assert(btn_tokens(ids_below(m, n)) =~= seq![]);
        assert(target =~= Set::empty());
    } else {
        let k = (n - 1) as nat;
        let prev = Set::new(|x: u8| (x as nat) < k && m.contains(x));
        lemma_collect_ids(m, k);
        let before = ids_below(m, k);
        if m.contains(k as u8) {
            let toks = btn_tokens(ids_below(m, n));
            assert(ids_below(m, n) =~= before.push(k as u8));
            assert(toks.drop_last() =~= btn_tokens(before));
            lemma_btn_token(k as u8);
            assert(prev.insert(k as u8) =~= target);
        } else {
            assert(ids_below(m, n) =~= before);
            assert(prev =~= target);
        }
    }
}

proof fn lemma_ids_present(m: Set<u8>, n: nat, x: u8)
    requires
        (x as nat) < n,
        m.contains(x),
    ensures
        ids_below(m, n).len() >= 1,
    decreases n,
{
    let k = (n - 1) as nat;
    if !m.contains(k as u8) {
        lemma_ids_present(m, k, x);
    }
}

/// Decoding the text form of a key combination gives the same combination
/// back, for every bindable action and every modifier set; only an empty
/// set written as `Some` comes back as `None`, so it is left out.
pub proof fn lemma_round_trip(k: KeyCombinationView)
    requires
        action_token(k.action) is Some,
        k.modifiers matches Some(m) ==> m != Set::<u8>::empty(),
    ensures
        encode_combination(k) is Some,
        decode_combination(encode_combination(k)->0) matches Ok(d) && d.action == k.action
            && d.modifiers == k.modifiers,
{
    let t = action_token(k.action)->0;
    match k.action {
        Action::ButtonPress { id } => lemma_btn_token(id),
        Action::EncoderIncrement { id } => lemma_enc_token(id, true),
        Action::EncoderDecrement { id } => lemma_enc_token(id, false),
        _ => {},
    }
    let ids = match k.modifiers {
        Some(m) => ids_below(m, 256),
        None => seq![],
    };
    let pieces = btn_tokens(ids).push(t);
    lemma_prefix_join(ids, t);
    let text = encode_combination(k)->0;
    if k.modifiers is None {
        assert(modifier_prefix(ids) + t =~= t);
    }
    assert(text == join_with(pieces, '+'));
    assert forall|i: int| 0 <= i < pieces.len() implies free_of(#[trigger] pieces[i], '+') by {
        if i < ids.len() {
            lemma_btn_token(ids[i]);
        }
    }
    lemma_split_join(pieces, '+');
    let n = pieces.len();
    assert(pieces[n - 1] == t);
    if let Some(m) = k.modifiers {
        let x = m.choose();
        assert(m.contains(x)) by {
            if !m.contains(x) {
                assert(m =~= Set::<u8>::empty());
            }
        }
        lemma_ids_present(m, 256, x);
        assert(pieces.subrange(0, n - 1) =~= btn_tokens(ids));
        lemma_collect_ids(m, 256);
        assert(Set::new(|y: u8| (y as nat) < 256 && m.contains(y)) =~= m);
    }
}

/// The text form depends on the modifier set alone, not on the order in
/// which its members were added: combinations with the same meaning have
/// the same text.
pub proof fn lemma_encode_order_free(a: KeyCombination, b: KeyCombination)
    requires
        a@ == b@,
    ensures
        encode_combination(a@) == encode_combination(b@),
{
}

} // verus!
