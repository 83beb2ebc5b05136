//! Which matplotlib call a plotting request turns into.
//!
//! The functions here choose method names and keyword arguments; performing the call
//! is left to the code that holds the Python objects. They are generic in the values
//! that ride along, so that they can carry handles this crate knows nothing about.

use vstd::prelude::*;

verus! {

/// Name of the axes method that draws bars in the given orientation.
pub open spec fn bar_method(horizontal: bool) -> Seq<char> {
    if horizontal {
        "barh"@
    } else {
        "bar"@
    }
}

/// Name of the keyword that sets the thickness of bars in the given orientation:
/// vertical bars have a width, horizontal bars a height.
pub open spec fn bar_thickness_keyword(horizontal: bool) -> Seq<char> {
    if horizontal {
        "height"@
    } else {
        "width"@
    }
}

/// A bar chart request, resolved to a method name and its optional keyword argument.
pub struct BarCall<W> {
    /// The axes method to invoke.
    pub method: &'static str,
    /// Keyword and value for the thickness of the bars, if the caller set one.
    pub thickness: Option<(&'static str, W)>,
}

/// Resolves a bar chart request: the method by orientation and, when `widths` is
/// given, the keyword under which it is passed.
pub fn plan_bar<W>(widths: Option<W>, horizontal: bool) -> (call: BarCall<W>)
    ensures
        call.method@ == bar_method(horizontal),
        widths is None <==> call.thickness is None,
        widths matches Some(given) ==> call.thickness matches Some((keyword, value))
            && keyword@ == bar_thickness_keyword(horizontal) && value == given,
{
    let method = if horizontal {
        "barh"
    } else {
        "bar"
    };
    let keyword = if horizontal {
        "height"
    } else {
        "width"
    };
    let thickness = match widths {
        Some(given) => Some((keyword, given)),
        None => None,
    };
    BarCall { method, thickness }
}

/// Keyword arguments that make new axes share their x axis with `share_x` and their
/// y axis with `share_y`, in that order, each only if given.
pub open spec fn shared_axes<A>(share_x: Option<A>, share_y: Option<A>) -> Seq<(Seq<char>, A)> {
    let x = match share_x {
        Some(axes) => seq![("sharex"@, axes)],
        None => Seq::empty(),
    };
    let y = match share_y {
        Some(axes) => seq![("sharey"@, axes)],
        None => Seq::empty(),
    };
    x + y
}

/// A keyword argument with its name as characters.
pub open spec fn keyword_view<A>(argument: (&'static str, A)) -> (Seq<char>, A) {
    (argument.0@, argument.1)
}

/// Builds the keyword arguments for axis sharing when axes are added to a figure.
pub fn share_keywords<A>(share_x: Option<A>, share_y: Option<A>) -> (shares: Vec<
    (&'static str, A),
>)
    ensures
        shares@.len() == shared_axes(share_x, share_y).len(),
        forall|i: int|
            0 <= i < shares@.len() ==> keyword_view(#[trigger] shares@[i]) == shared_axes(
                share_x,
                share_y,
            )[i],
{
    let mut shares: Vec<(&'static str, A)> = Vec::new();
    if let Some(axes) = share_x {
        shares.push(("sharex", axes));
    }
    if let Some(axes) = share_y {
        shares.push(("sharey", axes));
    }
    shares
}

} // verus!
